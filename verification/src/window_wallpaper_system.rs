//! A still picture of the built-in wallpaper macOS shows on a screen, for the wallpaper backdrop.
//!
//! macOS draws its built-in wallpapers (the dynamic landscapes, the aerials, the rendered ones)
//! from wallpaper extensions, and for those the desktop reports the system's default picture
//! instead of what is on screen. The real choice lives in the wallpaper agent's store, a property
//! list which records a provider and its configuration per Space and display; each provider ships a
//! thumbnail of its wallpaper. Under a 60pt blur a thumbnail is indistinguishable from the full
//! picture.
//!
//! The store and the extensions' resources are private and undocumented, so any step that finds
//! something it does not recognise gives up, and the window keeps the live blur.

use crate::text::{
    characters, contains_char, eq_ignore_ascii_case, same_ignoring_ascii_case, same_text,
    strip_prefix,
};
use vstd::prelude::*;

verus! {

/// A property list.
pub enum Plist {
    Dictionary(Vec<PlistEntry>),
    Array(Vec<Plist>),
    Text(String),
    Data(Vec<u8>),
    /// A number, a date or anything else.
    Other,
}

/// An entry of a dictionary.
pub struct PlistEntry {
    pub key: String,
    pub value: Plist,
}

/// The value of the first entry filed under `key`, from index `from` on.
pub open spec fn entry_value_from<'a>(
    entries: Seq<PlistEntry>,
    key: Seq<char>,
    from: int,
) -> Option<&'a Plist>
    decreases entries.len() - from,
{
    if from < 0 || from >= entries.len() {
        None
    } else if entries[from].key@ == key {
        Some(&entries[from].value)
    } else {
        entry_value_from(entries, key, from + 1)
    }
}

/// `dictionary[key]` when `dictionary` is a dictionary, nothing otherwise.
pub open spec fn member<'a>(dictionary: Option<&'a Plist>, key: Seq<char>) -> Option<&'a Plist> {
    match dictionary {
        Some(Plist::Dictionary(entries)) => entry_value_from(entries@, key, 0),
        _ => None,
    }
}

proof fn lemma_entry_skips(entries: Seq<PlistEntry>, key: Seq<char>, from: int, to: int)
    requires
        0 <= from <= to <= entries.len(),
        forall|i: int| from <= i < to ==> (#[trigger] entries[i]).key@ != key,
    ensures
        entry_value_from(entries, key, from) == entry_value_from(entries, key, to),
    decreases to - from,
{
    if from < to {
        lemma_entry_skips(entries, key, from + 1, to);
    }
}

/// `dictionary[key]` when `dictionary` is a dictionary, nothing otherwise.
pub fn object<'a>(dictionary: Option<&'a Plist>, key: &str) -> (value: Option<&'a Plist>)
    ensures
        value == member(dictionary, key@),
{
    match dictionary {
        Some(Plist::Dictionary(entries)) => {
            let mut i: usize = 0;
            while i < entries.len()
                invariant
                    i <= entries.len(),
                    dictionary matches Some(Plist::Dictionary(all)) && all == entries,
                    forall|j: int| 0 <= j < i ==> (#[trigger] entries@[j]).key@ != key@,
                decreases entries.len() - i,
            {
                if same_text(entries[i].key.as_str(), key) {
                    proof {
                        lemma_entry_skips(entries@, key@, 0, i as int);
                    }
                    return Some(&entries[i].value);
                }
                i = i + 1;
            }
            proof {
                lemma_entry_skips(entries@, key@, 0, i as int);
            }
            None
        },
        _ => None,
    }
}

/// The characters of a text that may be missing.
pub open spec fn optional_text(text: Option<&str>) -> Option<Seq<char>> {
    match text {
        Some(text) => Some(text@),
        None => None,
    }
}

/// The characters of a text.
pub open spec fn text_of(value: Option<&Plist>) -> Option<Seq<char>> {
    match value {
        Some(Plist::Text(text)) => Some(text@),
        _ => None,
    }
}

/// The text of a value that is one.
pub fn string_value<'a>(value: Option<&'a Plist>) -> (text: Option<&'a str>)
    ensures
        optional_text(text) == text_of(value),
{
    match value {
        Some(Plist::Text(text)) => Some(text.as_str()),
        _ => None,
    }
}

/// The desktop choice of one of the store's entries: the first of its choices.
pub open spec fn choice_of<'a>(entry: Option<&'a Plist>) -> Option<&'a Plist> {
    match member(member(member(entry, "Desktop"@), "Content"@), "Choices"@) {
        Some(Plist::Array(choices)) => if choices.len() > 0 {
            Some(&choices@[0])
        } else {
            None
        },
        _ => None,
    }
}

fn entry_choice<'a>(entry: Option<&'a Plist>) -> (choice: Option<&'a Plist>)
    ensures
        choice == choice_of(entry),
{
    match object(object(object(entry, "Desktop"), "Content"), "Choices") {
        Some(Plist::Array(choices)) => if choices.len() > 0 {
            Some(&choices[0])
        } else {
            None
        },
        _ => None,
    }
}

/// The store's entries for a Space and display, most specific first: the Space's entry for the
/// display, the Space's default, the display's own entry, the one for all Spaces and displays, then
/// the system default.
pub open spec fn store_entries<'a>(
    store: &'a Plist,
    space: Option<Seq<char>>,
    display: Seq<char>,
) -> Seq<Option<&'a Plist>> {
    let general = seq![
        member(member(Some(store), "Displays"@), display),
        member(Some(store), "AllSpacesAndDisplays"@),
        member(Some(store), "SystemDefault"@),
    ];
    match space {
        Some(space) => {
            let entry = member(member(Some(store), "Spaces"@), space);
            seq![member(member(entry, "Displays"@), display), member(entry, "Default"@)] + general
        },
        None => general,
    }
}

/// The choice of the first entry that has one, from index `from` on.
pub open spec fn first_choice_from<'a>(
    entries: Seq<Option<&'a Plist>>,
    from: int,
) -> Option<&'a Plist>
    decreases entries.len() - from,
{
    if from < 0 || from >= entries.len() {
        None
    } else if choice_of(entries[from]) is Some {
        choice_of(entries[from])
    } else {
        first_choice_from(entries, from + 1)
    }
}

proof fn lemma_first_choice_skips(entries: Seq<Option<&Plist>>, from: int, to: int)
    requires
        0 <= from <= to <= entries.len(),
        forall|i: int| from <= i < to ==> choice_of(#[trigger] entries[i]) is None,
    ensures
        first_choice_from(entries, from) == first_choice_from(entries, to),
    decreases to - from,
{
    if from < to {
        lemma_first_choice_skips(entries, from + 1, to);
    }
}

/// The store's most specific desktop choice for this Space and display. Entries without a desktop
/// choice (idle-only ones) are skipped.
pub fn desktop_choice<'a>(store: &'a Plist, space: Option<&str>, display: &str) -> (choice: Option<
    &'a Plist,
>)
    ensures
        choice == first_choice_from(
            store_entries(
                store,
                optional_text(space),
                display@,
            ),
            0,
        ),
{
    let mut entries: Vec<Option<&'a Plist>> = Vec::new();
    match space {
        Some(space) => {
            let space = object(object(Some(store), "Spaces"), space);
            entries.push(object(object(space, "Displays"), display));
            entries.push(object(space, "Default"));
        },
        None => {},
    }
    entries.push(object(object(Some(store), "Displays"), display));
    entries.push(object(Some(store), "AllSpacesAndDisplays"));
    entries.push(object(Some(store), "SystemDefault"));
    let ghost listed = store_entries(
        store,
        optional_text(space),
        display@,
    );
    assert(entries@ =~= listed);
    let mut i: usize = 0;
    while i < entries.len()
        invariant
            i <= entries.len(),
            entries@ == listed,
            listed == store_entries(store, optional_text(space), display@),
            forall|j: int| 0 <= j < i ==> choice_of(#[trigger] entries@[j]) is None,
        decreases entries.len() - i,
    {
        let choice = entry_choice(entries[i]);
        if choice.is_some() {
            proof {
                lemma_first_choice_skips(entries@, 0, i as int);
            }
            return choice;
        }
        i = i + 1;
    }
    proof {
        lemma_first_choice_skips(entries@, 0, i as int);
    }
    None
}

/// The most specific entry that has a desktop choice decides; those before it, which have none, are
/// skipped, and those after it do not matter.
pub proof fn law_most_specific_choice_wins(entries: Seq<Option<&Plist>>, i: int)
    requires
        0 <= i < entries.len(),
        choice_of(entries[i]) is Some,
        forall|j: int| 0 <= j < i ==> choice_of(#[trigger] entries[j]) is None,
    ensures
        first_choice_from(entries, 0) == choice_of(entries[i]),
{
    lemma_first_choice_skips(entries, 0, i);
}

/// The bytes of a choice's configuration, a nested property list; nothing when it has none.
pub open spec fn configuration_of(choice: &Plist) -> Option<Seq<u8>> {
    match member(Some(choice), "Configuration"@) {
        Some(Plist::Data(data)) => if data.len() > 0 {
            Some(data@)
        } else {
            None
        },
        _ => None,
    }
}

/// A choice's configuration, stored as a nested property list; `None` when it has none.
pub fn configuration<'a>(choice: &'a Plist) -> (data: Option<&'a [u8]>)
    ensures
        match data {
            Some(data) => configuration_of(choice) == Some(data@),
            None => configuration_of(choice) is None,
        },
{
    match object(Some(choice), "Configuration") {
        Some(Plist::Data(data)) => if data.len() > 0 {
            Some(data.as_slice())
        } else {
            None
        },
        _ => None,
    }
}

/// The wallpaper the store names for a Space and display.
pub struct BuiltInChoice<'a> {
    pub provider: &'a str,
    pub configuration: Option<&'a [u8]>,
}

/// The wallpaper the store names for this Space and display, or `None` when it names none.
pub fn built_in_choice<'a>(
    store: &'a Plist,
    space: Option<&str>,
    display: &str,
) -> (found: Option<BuiltInChoice<'a>>)
    ensures
        ({
            let choice = first_choice_from(
                store_entries(
                    store,
                    optional_text(space),
                    display@,
                ),
                0,
            );
            let provider = match choice {
                Some(choice) => text_of(member(Some(choice), "Provider"@)),
                None => None,
            };
            match found {
                Some(found) => {
                    &&& provider == Some(found.provider@)
                    &&& match found.configuration {
                        Some(data) => configuration_of(choice->0) == Some(data@),
                        None => configuration_of(choice->0) is None,
                    }
                },
                None => provider is None,
            }
        }),
{
    match desktop_choice(store, space, display) {
        Some(choice) => match string_value(object(Some(choice), "Provider")) {
            Some(provider) => Some(
                BuiltInChoice { provider, configuration: configuration(choice) },
            ),
            None => None,
        },
        None => None,
    }
}

/// The UUID of the Space that `entry` of the window server's list shows on the display, where the
/// entry is that display's: by its identifier, or as the main display.
pub open spec fn space_of(entry: &Plist, display: Seq<char>, is_main: bool) -> Option<Seq<char>> {
    match text_of(member(Some(entry), "Display Identifier"@)) {
        Some(identifier) => if same_ignoring_ascii_case(identifier, display) || (identifier
            == "Main"@ && is_main) {
            text_of(member(member(Some(entry), "Current Space"@), "uuid"@))
        } else {
            None
        },
        None => None,
    }
}

/// The Space of the first entry that has one for the display, from index `from` on.
pub open spec fn first_space_from(
    displays: Seq<Plist>,
    display: Seq<char>,
    is_main: bool,
    from: int,
) -> Option<Seq<char>>
    decreases displays.len() - from,
{
    if from < 0 || from >= displays.len() {
        None
    } else if space_of(&displays[from], display, is_main) is Some {
        space_of(&displays[from], display, is_main)
    } else {
        first_space_from(displays, display, is_main, from + 1)
    }
}

proof fn lemma_first_space_skips(
    displays: Seq<Plist>,
    display: Seq<char>,
    is_main: bool,
    from: int,
    to: int,
)
    requires
        0 <= from <= to <= displays.len(),
        forall|i: int|
            from <= i < to ==> space_of(&(#[trigger] displays[i]), display, is_main) is None,
    ensures
        first_space_from(displays, display, is_main, from) == first_space_from(
            displays,
            display,
            is_main,
            to,
        ),
    decreases to - from,
{
    if from < to {
        lemma_first_space_skips(displays, display, is_main, from + 1, to);
    }
}

fn entry_space<'a>(entry: &'a Plist, display: &str, is_main: bool) -> (space: Option<&'a str>)
    ensures
        optional_text(space) == space_of(entry, display@, is_main),
{
    match string_value(object(Some(entry), "Display Identifier")) {
        Some(identifier) => if eq_ignore_ascii_case(identifier, display) || (same_text(
            identifier,
            "Main",
        ) && is_main) {
            string_value(object(object(Some(entry), "Current Space"), "uuid"))
        } else {
            None
        },
        None => None,
    }
}

/// The UUID of the Space showing on the display (the first Space's is empty), from the window
/// server's list of displays; `is_main` tells that the display is the main one.
pub fn current_space_uuid<'a>(
    displays: &'a [Plist],
    display: &str,
    is_main: bool,
) -> (space: Option<&'a str>)
    ensures
        optional_text(space) == first_space_from(displays@, display@, is_main, 0),
{
    let mut i: usize = 0;
    while i < displays.len()
        invariant
            i <= displays.len(),
            forall|j: int|
                0 <= j < i ==> space_of(&(#[trigger] displays@[j]), display@, is_main) is None,
        decreases displays.len() - i,
    {
        let space = entry_space(&displays[i], display, is_main);
        if space.is_some() {
            proof {
                lemma_first_space_skips(displays@, display@, is_main, 0, i as int);
            }
            return space;
        }
        i = i + 1;
    }
    proof {
        lemma_first_space_skips(displays@, display@, is_main, 0, i as int);
    }
    None
}

/// Whether an interface style of this name, or none, looks dark.
pub open spec fn looks_dark(style: Option<Seq<char>>) -> bool {
    style is Some && same_ignoring_ascii_case(style->0, "dark"@)
}

/// Whether the system looks dark, by the name of its interface style. Built-in wallpapers with light
/// and dark looks follow the system appearance, not the app's.
pub fn system_uses_dark_appearance(style: Option<&str>) -> (dark: bool)
    ensures
        dark <==> style is Some && same_ignoring_ascii_case(style->0@, "dark"@),
        dark == looks_dark(optional_text(style)),
{
    match style {
        Some(style) => eq_ignore_ascii_case(style, "dark"),
        None => false,
    }
}

/// Where the wallpaper agent keeps its store.
pub fn store_path(home: &str) -> (path: String)
    ensures
        path@ == home@
            + "/Library/Application Support/com.apple.wallpaper/Store/Index.plist"@,
{
    let mut path = home.to_owned();
    path.append("/Library/Application Support/com.apple.wallpaper/Store/Index.plist");
    path
}

/// Whether Unicode counts `c` as a letter or a number.
pub uninterp spec fn char_is_alphanumeric(c: char) -> bool;

/// The upper-case form of `c`, which may be more than one character.
pub uninterp spec fn char_uppercase(c: char) -> Seq<char>;

pub open spec fn is_ascii(c: char) -> bool {
    (c as int) < 128
}

pub open spec fn is_ascii_lower(c: char) -> bool {
    97 <= c as int <= 122
}

/// Whether an ASCII character is a letter or a digit.
pub open spec fn is_ascii_alphanumeric(c: char) -> bool {
    48 <= c as int <= 57 || 65 <= c as int <= 90 || is_ascii_lower(c)
}

/// Whether `c` is a letter or a number.
pub open spec fn is_letter_or_number(c: char) -> bool {
    if is_ascii(c) {
        is_ascii_alphanumeric(c)
    } else {
        char_is_alphanumeric(c)
    }
}

/// `c` in upper case.
pub open spec fn in_upper_case(c: char) -> Seq<char> {
    if is_ascii_lower(c) {
        seq![(c as int - 32) as char]
    } else if is_ascii(c) {
        seq![c]
    } else {
        char_uppercase(c)
    }
}

/// `char::is_alphanumeric` tells whether Unicode counts a character as alphabetic or numeric. Of an
/// ASCII character that is so exactly for the letters and digits.
pub assume_specification[ char::is_alphanumeric ](c: char) -> (alphanumeric: bool)
    ensures
        alphanumeric == char_is_alphanumeric(c),
        is_ascii(c) ==> alphanumeric == is_ascii_alphanumeric(c),
;

/// `char::to_uppercase` yields the upper-case mapping of a character, which may be several
/// characters. An ASCII letter's is the upper-case letter, and any other ASCII character's is itself.
#[verifier::external_body]
fn uppercase(c: char) -> (upper: String)
    ensures
        upper@ == char_uppercase(c),
        is_ascii_lower(c) ==> upper@ == seq![(c as int - 32) as char],
        is_ascii(c) && !is_ascii_lower(c) ==> upper@ == seq![c],
{
    c.to_uppercase().to_string()
}

/// `name` with its first character replaced by `upper`.
pub fn with_first(upper: &str, name: &str) -> (title: String)
    requires
        name@.len() > 0,
    ensures
        title@ == upper@ + name@.skip(1),
{
    let chars = characters(name);
    let mut title = upper.to_owned();
    let mut i: usize = 1;
    while i < chars.len()
        invariant
            1 <= i <= chars.len(),
            chars@ == name@,
            title@ == upper@ + name@.subrange(1, i as int),
        decreases chars.len() - i,
    {
        title.push(chars[i]);
        assert(name@.subrange(1, i as int + 1) =~= name@.subrange(1, i as int).push(
            name@[i as int],
        ));
        assert(title@ =~= upper@ + name@.subrange(1, i as int + 1));
        i = i + 1;
    }
    assert(name@.subrange(1, i as int) =~= name@.skip(1));
    title
}

pub open spec fn titled(name: Seq<char>) -> Seq<char> {
    if name.len() == 0 {
        name
    } else {
        in_upper_case(name[0]) + name.skip(1)
    }
}

/// `name` with its first character in upper case.
pub fn title_case(name: &str) -> (title: String)
    ensures
        title@ == titled(name@),
{
    let chars = characters(name);
    if chars.len() == 0 {
        assert(name@ =~= Seq::<char>::empty());
        return String::new();
    }
    let upper = uppercase(chars[0]);
    with_first(upper.as_str(), name)
}

pub open spec fn all_alphanumeric(name: Seq<char>) -> bool {
    forall|i: int| 0 <= i < name.len() ==> is_letter_or_number(#[trigger] name[i])
}

fn is_alphanumeric(name: &str) -> (alphanumeric: bool)
    ensures
        alphanumeric == all_alphanumeric(name@),
{
    let chars = characters(name);
    let mut i: usize = 0;
    while i < chars.len()
        invariant
            i <= chars.len(),
            chars@ == name@,
            forall|j: int| 0 <= j < i ==> is_letter_or_number(#[trigger] name@[j]),
        decreases chars.len() - i,
    {
        let c = chars[i];
        if !c.is_alphanumeric() {
            assert(!is_letter_or_number(name@[i as int]));
            return false;
        }
        i = i + 1;
    }
    true
}

/// Where the still of an aerial may be: among the downloaded thumbnails, or with the extension.
/// There is none for an asset without a name or with a name that leads elsewhere.
pub open spec fn aerial_paths(asset: Option<Seq<char>>, home: Seq<char>) -> Seq<Seq<char>> {
    match asset {
        Some(asset) => if asset.len() == 0 || asset.contains('/') {
            Seq::empty()
        } else {
            seq![
                home
                    + "/Library/Application Support/com.apple.wallpaper/aerials/thumbnails/"@
                    + asset + ".png"@,
                "/System/Library/ExtensionKit/Extensions/WallpaperAerialsExtension.appex/Contents/Resources/"@
                    + asset + ".png"@,
            ]
        },
        None => Seq::empty(),
    }
}

/// Whether `paths` are the texts `texts`, in order.
pub open spec fn are_texts(paths: Seq<String>, texts: Seq<Seq<char>>) -> bool {
    &&& paths.len() == texts.len()
    &&& forall|i: int| 0 <= i < paths.len() ==> (#[trigger] paths[i])@ == texts[i]
}

pub fn aerial_stills(asset: Option<&str>, home: &str) -> (paths: Vec<String>)
    ensures
        are_texts(paths@, aerial_paths(optional_text(asset), home@)),
{
    let mut paths: Vec<String> = Vec::new();
    match asset {
        Some(asset) => {
            if asset.is_empty() || contains_char(asset, '/') {
                return paths;
            }
            let mut downloaded = home.to_owned();
            downloaded.append(
                "/Library/Application Support/com.apple.wallpaper/aerials/thumbnails/",
            );
            downloaded.append(asset);
            downloaded.append(".png");
            let mut shipped =
                "/System/Library/ExtensionKit/Extensions/WallpaperAerialsExtension.appex/Contents/Resources/".to_owned();
            shipped.append(asset);
            shipped.append(".png");
            paths.push(downloaded);
            paths.push(shipped);
        },
        None => {},
    }
    paths
}

/// Where the resources of the wallpaper extension with this title are.
pub open spec fn resources(title: Seq<char>) -> Seq<char> {
    "/System/Library/ExtensionKit/Extensions/Wallpaper"@ + title
        + "Extension.appex/Contents/Resources"@
}

/// Where the still of the wallpaper with this title may be, in its dark or light look, best first.
pub open spec fn title_paths(title: Seq<char>, dark: bool) -> Seq<Seq<char>> {
    seq![
        resources(title) + "/thumbnail "@ + (if dark {
            "dark"@
        } else {
            "light"@
        }) + ".heic"@,
        resources(title) + "/thumbnail.heic"@,
        "/System/Library/Desktop Pictures/.thumbnails/"@ + title + " "@ + (if dark {
            "Dark"@
        } else {
            "Light"@
        }) + ".heic"@,
        "/System/Library/Desktop Pictures/.thumbnails/"@ + title + ".heic"@,
        "/System/Library/Desktop Pictures/"@ + title + ".heic"@,
    ]
}

fn write_resources(title: &str) -> (path: String)
    ensures
        path@ == resources(title@),
{
    let mut path = "/System/Library/ExtensionKit/Extensions/Wallpaper".to_owned();
    path.append(title);
    path.append("Extension.appex/Contents/Resources");
    path
}

pub fn title_stills(title: &str, dark: bool) -> (paths: Vec<String>)
    ensures
        are_texts(paths@, title_paths(title@, dark)),
{
    let (variant, variant_title) = if dark {
        ("dark", "Dark")
    } else {
        ("light", "Light")
    };
    let mut look = write_resources(title);
    look.append("/thumbnail ");
    look.append(variant);
    look.append(".heic");
    let mut plain = write_resources(title);
    plain.append("/thumbnail.heic");
    let mut picture_look = "/System/Library/Desktop Pictures/.thumbnails/".to_owned();
    picture_look.append(title);
    picture_look.append(" ");
    picture_look.append(variant_title);
    picture_look.append(".heic");
    let mut picture = "/System/Library/Desktop Pictures/.thumbnails/".to_owned();
    picture.append(title);
    picture.append(".heic");
    let mut full = "/System/Library/Desktop Pictures/".to_owned();
    full.append(title);
    full.append(".heic");
    let mut paths: Vec<String> = Vec::new();
    paths.push(look);
    paths.push(plain);
    paths.push(picture_look);
    paths.push(picture);
    paths.push(full);
    paths
}

/// Where the still of a provider's wallpaper may be, best first. A provider that is not one of the
/// system's, a solid colour and a name with anything but letters and numbers have none.
pub open spec fn still_paths(
    provider: Seq<char>,
    asset: Option<Seq<char>>,
    home: Seq<char>,
    dark: bool,
) -> Seq<Seq<char>> {
    let prefix = "com.apple.wallpaper.choice."@;
    let name = provider.skip(prefix.len() as int);
    if !prefix.is_prefix_of(provider) {
        Seq::empty()
    } else if name == "aerials"@ {
        aerial_paths(asset, home)
    } else if name == "color"@ || name.len() == 0 || !all_alphanumeric(name) {
        Seq::empty()
    } else {
        title_paths(titled(name), dark)
    }
}

/// Where the still of the provider's wallpaper may be, best first; nowhere for a wallpaper without
/// one.
pub fn still_for_provider(
    provider: &str,
    configuration: Option<&Plist>,
    home: &str,
    dark: bool,
) -> (paths: Vec<String>)
    ensures
        are_texts(
            paths@,
            still_paths(provider@, text_of(member(configuration, "assetID"@)), home@, dark),
        ),
{
    let name = match strip_prefix(provider, "com.apple.wallpaper.choice.") {
        Some(name) => name,
        None => {
            return Vec::new();
        },
    };
    if same_text(name.as_str(), "aerials") {
        return aerial_stills(string_value(object(configuration, "assetID")), home);
    }
    if same_text(name.as_str(), "color") || name.as_str().is_empty() || !is_alphanumeric(
        name.as_str(),
    ) {
        return Vec::new();
    }
    let title = title_case(name.as_str());
    title_stills(title.as_str(), dark)
}

/// The first of `paths` that is an existing file, as `is_file` tells of each.
pub fn first_existing(paths: &[String], is_file: &[bool]) -> (found: Option<String>)
    requires
        paths.len() == is_file.len(),
    ensures
        match found {
            Some(path) => exists|i: int|
                0 <= i < paths.len() && is_file@[i] && path@ == (#[trigger] paths@[i])@ && forall|
                    j: int,
                |
                    0 <= j < i ==> !(#[trigger] is_file@[j]),
            None => forall|i: int| 0 <= i < is_file.len() ==> !(#[trigger] is_file@[i]),
        },
{
    let mut i: usize = 0;
    while i < paths.len()
        invariant
            i <= paths.len(),
            paths.len() == is_file.len(),
            forall|j: int| 0 <= j < i ==> !(#[trigger] is_file@[j]),
        decreases paths.len() - i,
    {
        if is_file[i] {
            let path = paths[i].as_str().to_owned();
            assert(path@ == paths@[i as int]@);
            return Some(path);
        }
        i = i + 1;
    }
    None
}

/// An aerial's still is a file of one of the two folders aerials are kept in, whatever the store
/// says: the asset's name cannot lead elsewhere.
pub proof fn law_aerial_stills_stay_in_their_folders(asset: Seq<char>, home: Seq<char>, i: int)
    requires
        0 <= i < aerial_paths(Some(asset), home).len(),
    ensures
        !asset.contains('/'),
        aerial_paths(Some(asset), home)[i] == (if i == 0 {
            home + "/Library/Application Support/com.apple.wallpaper/aerials/thumbnails/"@
        } else {
            "/System/Library/ExtensionKit/Extensions/WallpaperAerialsExtension.appex/Contents/Resources/"@
        }) + asset + ".png"@,
{
}

/// Whether `path` is `folder`, then `title`, then `rest`.
pub open spec fn is_still_of(
    path: Seq<char>,
    folder: Seq<char>,
    title: Seq<char>,
    rest: Seq<char>,
) -> bool {
    path == folder + title + rest
}

/// The still of a named provider's wallpaper stays in the folders of the system's extensions and
/// desktop pictures, whatever the store says: the provider's name has no slash in it, nor has its
/// title where the name starts with an ASCII character. Of the upper-case form of other characters
/// that is left unsaid.
pub proof fn law_named_stills_stay_in_their_folders(
    provider: Seq<char>,
    asset: Option<Seq<char>>,
    home: Seq<char>,
    dark: bool,
    i: int,
)
    requires
        provider.skip("com.apple.wallpaper.choice."@.len() as int) != "aerials"@,
        0 <= i < still_paths(provider, asset, home, dark).len(),
    ensures
        ({
            let name = provider.skip("com.apple.wallpaper.choice."@.len() as int);
            let title = titled(name);
            let path = still_paths(provider, asset, home, dark)[i];
            &&& !name.contains('/')
            &&& is_ascii(name[0]) ==> !title.contains('/')
            &&& if i < 2 {
                exists|rest: Seq<char>| #[trigger]
                    is_still_of(
                        path,
                        "/System/Library/ExtensionKit/Extensions/Wallpaper"@,
                        title,
                        rest,
                    ) && "Extension.appex/Contents/Resources"@.is_prefix_of(rest)
            } else if i < 4 {
                exists|rest: Seq<char>| #[trigger]
                    is_still_of(
                        path,
                        "/System/Library/Desktop Pictures/.thumbnails/"@,
                        title,
                        rest,
                    ) && !rest.contains('/')
            } else {
                path == "/System/Library/Desktop Pictures/"@ + title + ".heic"@
            }
        }),
{
    let name = provider.skip("com.apple.wallpaper.choice."@.len() as int);
    let title = titled(name);
    let path = still_paths(provider, asset, home, dark)[i];
    assert forall|k: int| 0 <= k < name.len() implies #[trigger] name[k] != '/' by {
        assert(is_letter_or_number(name[k]));
    }
    if is_ascii(name[0]) {
        assert(is_letter_or_number(name[0]));
        assert forall|k: int| 0 <= k < title.len() implies #[trigger] title[k] != '/' by {
            if k > 0 {
                assert(title[k] == name[k]);
            }
        }
    }
    reveal_strlit(".heic");
    reveal_strlit(" ");
    reveal_strlit("Dark");
    reveal_strlit("Light");
    let extension = "Extension.appex/Contents/Resources"@;
    let look = if dark {
        "dark"@
    } else {
        "light"@
    };
    let look_title = if dark {
        "Dark"@
    } else {
        "Light"@
    };
    if i == 0 {
        let rest = extension + "/thumbnail "@ + look + ".heic"@;
        assert(path =~= "/System/Library/ExtensionKit/Extensions/Wallpaper"@ + title + rest);
        assert(is_still_of(
            path,
            "/System/Library/ExtensionKit/Extensions/Wallpaper"@,
            title,
            rest,
        ));
        assert(extension =~= rest.subrange(0, extension.len() as int));
    } else if i == 1 {
        let rest = extension + "/thumbnail.heic"@;
        assert(path =~= "/System/Library/ExtensionKit/Extensions/Wallpaper"@ + title + rest);
        assert(is_still_of(
            path,
            "/System/Library/ExtensionKit/Extensions/Wallpaper"@,
            title,
            rest,
        ));
        assert(extension =~= rest.subrange(0, extension.len() as int));
    } else if i == 2 {
        let rest = " "@ + look_title + ".heic"@;
        assert(path =~= "/System/Library/Desktop Pictures/.thumbnails/"@ + title + rest);
        assert(is_still_of(path, "/System/Library/Desktop Pictures/.thumbnails/"@, title, rest));
    } else if i == 3 {
        assert(is_still_of(
            path,
            "/System/Library/Desktop Pictures/.thumbnails/"@,
            title,
            ".heic"@,
        ));
    }
}

/// Any wallpaper without a still gives none: an unknown provider, a solid colour, an aerial without
/// an asset.
pub proof fn law_unknown_wallpapers_have_no_still(
    provider: Seq<char>,
    asset: Option<Seq<char>>,
    home: Seq<char>,
    dark: bool,
)
    requires
        !"com.apple.wallpaper.choice."@.is_prefix_of(provider) || provider
            == "com.apple.wallpaper.choice."@ + "color"@ || (provider
            == "com.apple.wallpaper.choice."@ + "aerials"@ && asset is None),
    ensures
        still_paths(provider, asset, home, dark).len() == 0,
{
    let prefix = "com.apple.wallpaper.choice."@;
    reveal_strlit("aerials");
    reveal_strlit("color");
    if prefix.is_prefix_of(provider) {
        let name = provider.skip(prefix.len() as int);
        assert(name =~= "color"@ || name =~= "aerials"@);
    }
}

/// A provider of the system's that is named by letters and numbers has five stills: the thumbnail of
/// its extension in the dark look on a dark system and in the light look on a light one, the one
/// without a look, the desktop picture's thumbnails in the same order, and the desktop picture.
pub proof fn law_named_provider_has_stills_of_its_look(
    name: Seq<char>,
    asset: Option<Seq<char>>,
    home: Seq<char>,
    dark: bool,
)
    requires
        name.len() > 0,
        name != "aerials"@,
        name != "color"@,
        forall|i: int| 0 <= i < name.len() ==> is_letter_or_number(#[trigger] name[i]),
    ensures
        ({
            let paths = still_paths("com.apple.wallpaper.choice."@ + name, asset, home, dark);
            let extension = "/System/Library/ExtensionKit/Extensions/Wallpaper"@ + titled(name)
                + "Extension.appex/Contents/Resources"@;
            let thumbnail = "/System/Library/Desktop Pictures/.thumbnails/"@ + titled(name);
            &&& paths.len() == 5
            &&& dark ==> paths[0] == extension + "/thumbnail dark.heic"@
            &&& !dark ==> paths[0] == extension + "/thumbnail light.heic"@
            &&& paths[1] == extension + "/thumbnail.heic"@
            &&& dark ==> paths[2] == thumbnail + " Dark.heic"@
            &&& !dark ==> paths[2] == thumbnail + " Light.heic"@
            &&& paths[3] == thumbnail + ".heic"@
            &&& paths[4] == "/System/Library/Desktop Pictures/"@ + titled(name) + ".heic"@
        }),
{
    let prefix = "com.apple.wallpaper.choice."@;
    let provider = prefix + name;
    let paths = still_paths(provider, asset, home, dark);
    assert(prefix =~= provider.subrange(0, prefix.len() as int));
    assert(provider.skip(prefix.len() as int) =~= name);
    reveal_strlit("/thumbnail ");
    reveal_strlit("dark");
    reveal_strlit("light");
    reveal_strlit(".heic");
    reveal_strlit(" ");
    reveal_strlit("Dark");
    reveal_strlit("Light");
    reveal_strlit("/thumbnail dark.heic");
    reveal_strlit("/thumbnail light.heic");
    reveal_strlit(" Dark.heic");
    reveal_strlit(" Light.heic");
    assert("/thumbnail "@ + "dark"@ + ".heic"@ =~= "/thumbnail dark.heic"@);
    assert("/thumbnail "@ + "light"@ + ".heic"@ =~= "/thumbnail light.heic"@);
    assert(" "@ + "Dark"@ + ".heic"@ =~= " Dark.heic"@);
    assert(" "@ + "Light"@ + ".heic"@ =~= " Light.heic"@);
    let extension = "/System/Library/ExtensionKit/Extensions/Wallpaper"@ + titled(name)
        + "Extension.appex/Contents/Resources"@;
    let thumbnail = "/System/Library/Desktop Pictures/.thumbnails/"@ + titled(name);
    if dark {
        assert(paths[0] =~= extension + ("/thumbnail "@ + "dark"@ + ".heic"@));
        assert(paths[2] =~= thumbnail + (" "@ + "Dark"@ + ".heic"@));
    } else {
        assert(paths[0] =~= extension + ("/thumbnail "@ + "light"@ + ".heic"@));
        assert(paths[2] =~= thumbnail + (" "@ + "Light"@ + ".heic"@));
    }
}

/// A system that looks dark is shown other stills than one that looks light: the two places that
/// have a look are different, and the three without one are the same.
pub proof fn law_dark_and_light_stills_differ(
    name: Seq<char>,
    asset: Option<Seq<char>>,
    home: Seq<char>,
)
    requires
        name.len() > 0,
        name != "aerials"@,
        name != "color"@,
        forall|i: int| 0 <= i < name.len() ==> is_letter_or_number(#[trigger] name[i]),
    ensures
        ({
            let provider = "com.apple.wallpaper.choice."@ + name;
            let dark = still_paths(provider, asset, home, true);
            let light = still_paths(provider, asset, home, false);
            &&& dark.len() == light.len() == 5
            &&& dark[0] != light[0]
            &&& dark[2] != light[2]
            &&& dark[1] == light[1]
            &&& dark[3] == light[3]
            &&& dark[4] == light[4]
        }),
{
    law_named_provider_has_stills_of_its_look(name, asset, home, true);
    law_named_provider_has_stills_of_its_look(name, asset, home, false);
    reveal_strlit("/thumbnail dark.heic");
    reveal_strlit("/thumbnail light.heic");
    reveal_strlit(" Dark.heic");
    reveal_strlit(" Light.heic");
    let extension = "/System/Library/ExtensionKit/Extensions/Wallpaper"@ + titled(name)
        + "Extension.appex/Contents/Resources"@;
    let thumbnail = "/System/Library/Desktop Pictures/.thumbnails/"@ + titled(name);
    assert((extension + "/thumbnail dark.heic"@).len() + 1 == (extension
        + "/thumbnail light.heic"@).len());
    assert((thumbnail + " Dark.heic"@).len() + 1 == (thumbnail + " Light.heic"@).len());
}

/// The stills of an aerial are named after its asset, in the folder of downloaded thumbnails first
/// and with the extension second; they have no look. An asset without a name, or with a slash in it,
/// has none.
pub proof fn law_aerial_stills_are_named_after_the_asset(
    asset: Seq<char>,
    home: Seq<char>,
    dark: bool,
)
    ensures
        ({
            let paths = still_paths(
                "com.apple.wallpaper.choice."@ + "aerials"@,
                Some(asset),
                home,
                dark,
            );
            &&& asset.len() == 0 || asset.contains('/') ==> paths.len() == 0
            &&& asset.len() > 0 && !asset.contains('/') ==> {
                &&& paths.len() == 2
                &&& paths[0] == home
                    + "/Library/Application Support/com.apple.wallpaper/aerials/thumbnails/"@
                    + asset + ".png"@
                &&& paths[1]
                    == "/System/Library/ExtensionKit/Extensions/WallpaperAerialsExtension.appex/Contents/Resources/"@
                    + asset + ".png"@
            }
        }),
{
    let prefix = "com.apple.wallpaper.choice."@;
    let provider = prefix + "aerials"@;
    assert(prefix =~= provider.subrange(0, prefix.len() as int));
    assert(provider.skip(prefix.len() as int) =~= "aerials"@);
}

/// A provider whose name is empty, or holds an ASCII character that is no letter and no digit, has
/// no still.
pub proof fn law_other_names_have_no_still(
    name: Seq<char>,
    asset: Option<Seq<char>>,
    home: Seq<char>,
    dark: bool,
    i: int,
)
    requires
        name.len() == 0 || (0 <= i < name.len() && (name[i] as int) < 128 && !('0' <= name[i] <= '9')
            && !('A' <= name[i] <= 'Z') && !('a' <= name[i] <= 'z')),
    ensures
        still_paths("com.apple.wallpaper.choice."@ + name, asset, home, dark).len() == 0,
{
    let prefix = "com.apple.wallpaper.choice."@;
    let provider = prefix + name;
    assert(prefix =~= provider.subrange(0, prefix.len() as int));
    assert(provider.skip(prefix.len() as int) =~= name);
    reveal_strlit("aerials");
    if name.len() > 0 {
        assert(!is_letter_or_number(name[i]));
    }
}

/// Of the ASCII characters the letters and digits are letters or numbers; of the others, those that
/// Unicode counts as such.
pub proof fn law_letters_and_numbers(c: char)
    ensures
        (c as int) < 128 ==> (is_letter_or_number(c) <==> '0' <= c <= '9' || 'A' <= c <= 'Z' || 'a'
            <= c <= 'z'),
        c as int >= 128 ==> is_letter_or_number(c) == char_is_alphanumeric(c),
{
}

/// A title is the name with its first character in upper case and nothing else changed.
pub proof fn law_title_starts_in_upper_case(name: Seq<char>)
    ensures
        name.len() == 0 ==> titled(name).len() == 0,
        name.len() > 0 && (name[0] as int) < 128 ==> {
            &&& titled(name).len() == name.len()
            &&& forall|i: int| 0 < i < name.len() ==> #[trigger] titled(name)[i] == name[i]
            &&& 'a' <= name[0] <= 'z' ==> titled(name)[0] as int == name[0] as int - 32
            &&& !('a' <= name[0] <= 'z') ==> titled(name)[0] == name[0]
        },
        name.len() > 0 && name[0] as int >= 128 ==> titled(name) == char_uppercase(name[0])
            + name.skip(1),
{
}

/// A dictionary gives the value of the first entry filed under a key, and nothing for a key that no
/// entry is filed under; what is no dictionary gives nothing.
pub proof fn law_dictionary_gives_the_first_entry(
    dictionary: Plist,
    entries: Seq<PlistEntry>,
    key: Seq<char>,
    i: int,
)
    requires
        0 <= i <= entries.len(),
        forall|j: int| 0 <= j < i ==> (#[trigger] entries[j]).key@ != key,
        i < entries.len() ==> entries[i].key@ == key,
    ensures
        dictionary matches Plist::Dictionary(all) ==> (all@ == entries ==> member(
            Some(&dictionary),
            key,
        ) == if i < entries.len() {
            Some(&entries[i].value)
        } else {
            None
        }),
        !(dictionary is Dictionary) ==> member(Some(&dictionary), key) is None,
        member(None, key) is None,
{
    lemma_entry_skips(entries, key, 0, i);
}

/// Only a text has characters, and they are its own.
pub proof fn law_only_texts_have_characters(value: Plist)
    ensures
        value matches Plist::Text(text) ==> text_of(Some(&value)) == Some(text@),
        !(value is Text) ==> text_of(Some(&value)) is None,
        text_of(None) is None,
{
}

/// The desktop choice of an entry is the first of the choices in its desktop's content; an entry
/// whose choices are missing, empty or no list has none.
pub proof fn law_entry_has_its_first_choice(entry: Option<&Plist>)
    ensures
        ({
            let choices = member(member(member(entry, "Desktop"@), "Content"@), "Choices"@);
            match choices {
                Some(Plist::Array(list)) => {
                    &&& list@.len() > 0 ==> choice_of(entry) == Some(&list@[0])
                    &&& list@.len() == 0 ==> choice_of(entry) is None
                },
                _ => choice_of(entry) is None,
            }
        }),
{
}

/// The choice for a display on a Space is the one the Space has for the display, else the Space's
/// default, else the display's own, else the one for all, else the system's.
pub proof fn law_choice_goes_from_the_space_to_the_system(
    store: &Plist,
    space: Seq<char>,
    display: Seq<char>,
)
    ensures
        ({
            let chosen = first_choice_from(store_entries(store, Some(space), display), 0);
            let whole = Some(store);
            let on_space = member(member(whole, "Spaces"@), space);
            let first = choice_of(member(member(on_space, "Displays"@), display));
            let second = choice_of(member(on_space, "Default"@));
            let third = choice_of(member(member(whole, "Displays"@), display));
            let fourth = choice_of(member(whole, "AllSpacesAndDisplays"@));
            let fifth = choice_of(member(whole, "SystemDefault"@));
            &&& first is Some ==> chosen == first
            &&& first is None && second is Some ==> chosen == second
            &&& first is None && second is None && third is Some ==> chosen == third
            &&& first is None && second is None && third is None && fourth is Some ==> chosen
                == fourth
            &&& first is None && second is None && third is None && fourth is None ==> chosen
                == fifth
        }),
{
    let entries = store_entries(store, Some(space), display);
    assert(entries.len() == 5);
    reveal_with_fuel(first_choice_from, 6);
}

/// Where the Space is not known the choice is the display's own, else the one for all, else the
/// system's, whatever the store has for any Space.
pub proof fn law_choice_without_a_space(store: &Plist, display: Seq<char>)
    ensures
        ({
            let chosen = first_choice_from(store_entries(store, None, display), 0);
            let whole = Some(store);
            let first = choice_of(member(member(whole, "Displays"@), display));
            let second = choice_of(member(whole, "AllSpacesAndDisplays"@));
            let third = choice_of(member(whole, "SystemDefault"@));
            &&& first is Some ==> chosen == first
            &&& first is None && second is Some ==> chosen == second
            &&& first is None && second is None ==> chosen == third
        }),
{
    let entries = store_entries(store, None, display);
    assert(entries.len() == 3);
    reveal_with_fuel(first_choice_from, 4);
}

/// A choice has the configuration that is filed as bytes under it, unless there are no bytes.
pub proof fn law_configuration_is_bytes(choice: &Plist)
    ensures
        match member(Some(choice), "Configuration"@) {
            Some(Plist::Data(data)) => {
                &&& data@.len() > 0 ==> configuration_of(choice) == Some(data@)
                &&& data@.len() == 0 ==> configuration_of(choice) is None
            },
            _ => configuration_of(choice) is None,
        },
{
}

/// The Space of a display is the current one of the first entry that is the display's and has one:
/// an entry is the display's when it carries the display's identifier, in whatever case, or when it
/// is called Main and the display is the main one.
pub proof fn law_space_is_that_of_the_display(
    displays: Seq<Plist>,
    display: Seq<char>,
    is_main: bool,
    i: int,
)
    requires
        0 <= i < displays.len(),
        text_of(member(Some(&displays[i]), "Display Identifier"@)) is Some,
        text_of(member(member(Some(&displays[i]), "Current Space"@), "uuid"@)) is Some,
        ({
            let identifier = text_of(member(Some(&displays[i]), "Display Identifier"@))->0;
            same_ignoring_ascii_case(identifier, display) || (is_main && identifier == "Main"@)
        }),
        forall|j: int|
            #![trigger displays[j]]
            0 <= j < i ==> ({
                let identifier = text_of(member(Some(&displays[j]), "Display Identifier"@));
                ||| identifier is None
                ||| !same_ignoring_ascii_case(identifier->0, display) && !(is_main && identifier->0
                    == "Main"@)
                ||| text_of(member(member(Some(&displays[j]), "Current Space"@), "uuid"@)) is None
            }),
    ensures
        first_space_from(displays, display, is_main, 0) == text_of(
            member(member(Some(&displays[i]), "Current Space"@), "uuid"@),
        ),
{
    assert forall|j: int| 0 <= j < i implies space_of(
        &(#[trigger] displays[j]),
        display,
        is_main,
    ) is None by {
        let identifier = text_of(member(Some(&displays[j]), "Display Identifier"@));
    }
    lemma_first_space_skips(displays, display, is_main, 0, i);
}

/// A display that no entry is of has no Space.
pub proof fn law_unlisted_display_has_no_space(
    displays: Seq<Plist>,
    display: Seq<char>,
    is_main: bool,
)
    requires
        forall|j: int|
            #![trigger displays[j]]
            0 <= j < displays.len() ==> ({
                let identifier = text_of(member(Some(&displays[j]), "Display Identifier"@));
                ||| identifier is None
                ||| !same_ignoring_ascii_case(identifier->0, display) && !(is_main && identifier->0
                    == "Main"@)
            }),
    ensures
        first_space_from(displays, display, is_main, 0) is None,
{
    assert forall|j: int| 0 <= j < displays.len() implies space_of(
        &(#[trigger] displays[j]),
        display,
        is_main,
    ) is None by {
        let identifier = text_of(member(Some(&displays[j]), "Display Identifier"@));
    }
    lemma_first_space_skips(displays, display, is_main, 0, displays.len() as int);
}

/// A system looks dark exactly when its style is called dark, in whatever case, and light when it has
/// no style or one of another name.
pub proof fn law_dark_is_spelt_in_any_case(style: Seq<char>)
    ensures
        !looks_dark(None),
        looks_dark(Some(style)) <==> style.len() == 4 && (style[0] == 'd' || style[0] == 'D') && (
        style[1] == 'a' || style[1] == 'A') && (style[2] == 'r' || style[2] == 'R') && (style[3]
            == 'k' || style[3] == 'K'),
{
    reveal_strlit("dark");
    crate::text::law_only_the_case_of_ascii_letters_is_ignored(style, "dark"@);
    if looks_dark(Some(style)) {
        let _ = (style[0], style[1], style[2], style[3]);
    }
}

} // verus!
