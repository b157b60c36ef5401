# gpui_window

The rules a window follows around what it draws itself, as a verified library.

- `native_occlusions`: the regions native child views cover, and laying overlays out around them.
- `window_live`, `window_video`, `window_wallpaper`, `window_wallpaper_system`: the backdrops of a
  window (an animated style, a looping video, a blurred desktop picture), when they move, what they
  show and where it goes.
- `a11y`, `json`: the accessibility tree as a page gets it, and the actions it sends back.
- `file_dialog`: a picker for files and folders alike.
- `geometry`, `color`, `fraction`, `text`: the values the rules are stated over.

Lengths, colours, speeds and times are exact whole numbers of small units, so what is proved of them
holds without rounding. Native objects (views, players, textures, images) are numbers.

`src/` holds the rules with their contracts. Functions named `law_...` state what holds of several
of them together. `tests/` runs the rules on given values. `app/` is the code around them: Cocoa,
Metal, Core Image, the Windows shell and the page's DOM.
