//! The rules a window follows around what it draws itself: the regions native views cover, the
//! backdrop behind its content, the accessibility tree it shows and the files it picks.
//!
//! Nothing here draws, plays or reads a file. Native objects are numbers, and what the system says
//! comes in as plain values; what is to be done goes out the same way.

pub mod a11y;
pub mod color;
pub mod file_dialog;
pub mod fraction;
pub mod geometry;
pub mod json;
pub mod native_occlusions;
pub mod text;
pub mod window_live;
pub mod window_video;
pub mod window_wallpaper;
pub mod window_wallpaper_system;
