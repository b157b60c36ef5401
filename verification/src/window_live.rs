//! The live backdrop of a wallpaper-mode window: an animated style drawn behind the window's
//! content, in place of the picture or video. It moves only while someone can see it, under
//! exactly the rules the video backdrop follows (`window_video::window_may_animate`).
//!
//! Every live view shares one clock, so a window laid over another (a floating panel) that covers
//! the same rectangle draws exactly the same frame as the window under it.

use crate::color::{clamp_level, clamped_level, Level, Rgb, Rgba, LEVEL_ONE};
use crate::fraction::{least, less, rounded};
use crate::geometry::{Bounds, Pixels, Point, Size, UNITS_PER_PIXEL};
use crate::text::same_text;
use vstd::prelude::*;

verus! {

/// The styles there are shaders for, by the id Settings saves.
pub open spec fn is_live_style(style: Seq<char>) -> bool {
    ||| style == "aurora"@
    ||| style == "ink"@
    ||| style == "drift"@
    ||| style == "nebula"@
    ||| style == "silk"@
    ||| style == "bokeh"@
    ||| style == "waves"@
    ||| style == "mesh"@
}

/// The id of `style`, or `None` when it is not one this platform draws.
pub fn style_id(style: &str) -> (id: Option<&'static str>)
    ensures
        id is Some <==> is_live_style(style@),
        id is Some ==> id->0@ == style@,
{
    if same_text(style, "aurora") {
        Some("aurora")
    } else if same_text(style, "ink") {
        Some("ink")
    } else if same_text(style, "drift") {
        Some("drift")
    } else if same_text(style, "nebula") {
        Some("nebula")
    } else if same_text(style, "silk") {
        Some("silk")
    } else if same_text(style, "bokeh") {
        Some("bokeh")
    } else if same_text(style, "waves") {
        Some("waves")
    } else if same_text(style, "mesh") {
        Some("mesh")
    } else {
        None
    }
}

/// Whether this platform draws `style`.
pub fn draws_style(style: &str) -> (drawn: bool)
    ensures
        drawn == is_live_style(style@),
{
    style_id(style).is_some()
}

/// How many units make one second of the clock's phase: a nanosecond of time at a millionth of the
/// normal speed is one unit.
pub const PHASE_UNITS_PER_SECOND: u64 = 1_000_000_000_000_000;

/// One loop of every style: two minutes at speed 1, in phase units. The clock only ever
/// accumulates time times speed, so it wraps with the last frame of a loop equal to its first.
pub const LIVE_PERIOD: u64 = 120_000_000_000_000_000;

/// A time between two ticks longer than this, in nanoseconds, is a pause and does not advance the
/// clock, so motion resumes where it stopped.
pub const LIVE_MAX_STEP: u64 = 100_000_000;

/// How long a change of style, colours or brightness cross-fades, in nanoseconds.
pub const LIVE_FADE: u64 = 750_000_000;

/// What a fade's amount is counted in: the cube of `LIVE_FADE`.
pub const FADE_SCALE: u128 = 421_875_000_000_000_000_000_000_000;

/// The slowest and fastest a style runs, in millionths of the normal speed.
pub const MIN_SPEED: i64 = 50_000;

pub const MAX_SPEED: i64 = 4_000_000;

/// The backdrop is drawn this many times smaller than the window, and at most this large, in
/// pixels.
pub const LIVE_DOWNSCALE: i64 = 8;

pub const LIVE_MAX_WIDTH: i64 = 320;

pub const LIVE_MAX_HEIGHT: i64 = 200;

/// The least the backdrop is drawn wide and high, in pixels.
pub const LIVE_MIN_SIDE: u64 = 16;

/// The three colours a style is drawn in.
#[derive(Clone, Copy, Debug, PartialEq, Eq, Structural)]
pub struct Palette {
    pub first: Rgb,
    pub second: Rgb,
    pub third: Rgb,
}

/// What Settings asks a live backdrop to draw.
pub struct LiveBackground {
    pub style: String,
    pub colors: Palette,
    pub brightness: Level,
    /// In millionths of the normal speed.
    pub speed: i64,
    pub only_on_power: bool,
}

/// A picture kept off screen; `handle` stands for the graphics card's texture.
#[derive(Clone, Copy, Debug, PartialEq, Eq, Structural)]
pub struct Texture {
    pub handle: u64,
    pub width: u64,
    pub height: u64,
}

/// Whether there is a texture of exactly this size.
pub open spec fn matches_size(texture: Option<Texture>, width: u64, height: u64) -> bool {
    texture is Some && texture->0.width == width && texture->0.height == height
}

pub fn texture_matches(texture: &Option<Texture>, width: u64, height: u64) -> (same: bool)
    ensures
        same == matches_size(*texture, width, height),
{
    match texture {
        Some(texture) => texture.width == width && texture.height == height,
        None => false,
    }
}

/// Whether there is a texture and it has this handle.
pub open spec fn has_handle(texture: Option<Texture>, handle: u64) -> bool {
    texture is Some && texture->0.handle == handle
}

fn is_texture(texture: Option<Texture>, handle: u64) -> (is: bool)
    ensures
        is == has_handle(texture, handle),
{
    match texture {
        Some(texture) => texture.handle == handle,
        None => false,
    }
}

pub fn same_rect(a: Option<Bounds>, b: Option<Bounds>) -> (same: bool)
    ensures
        same == (a == b),
{
    match (a, b) {
        (None, None) => true,
        (Some(a), Some(b)) => a.origin.x.units == b.origin.x.units && a.origin.y.units
            == b.origin.y.units && a.size.width.units == b.size.width.units && a.size.height.units
            == b.size.height.units,
        _ => false,
    }
}

/// How far a fade has come, out of `FADE_SCALE`.
#[derive(Clone, Copy, Debug, PartialEq, Eq, Structural)]
pub struct FadeAmount {
    pub amount: u128,
}

/// The time from `since` to `now`, nothing when `now` is earlier.
pub open spec fn elapsed(since: u64, now: u64) -> int {
    if now >= since {
        now - since
    } else {
        0
    }
}

/// A fade that is `t` nanoseconds old, eased in and out: with x = t / `LIVE_FADE`, it is
/// x * x * (3 - 2 * x), counted in `FADE_SCALE`.
pub open spec fn eased(t: int) -> int {
    t * t * (3 * LIVE_FADE - 2 * t)
}

/// How far the fade has come, eased in and out; `None` once it is over.
pub fn fade_amount(started: Option<u64>, now: u64) -> (fade: Option<FadeAmount>)
    ensures
        fade is Some <==> started is Some && elapsed(started->0, now) < LIVE_FADE,
        fade is Some ==> fade->0.amount == eased(elapsed(started->0, now)),
{
    match started {
        None => None,
        Some(started) => {
            let age: u64 = if now >= started {
                now - started
            } else {
                0
            };
            if age >= LIVE_FADE {
                None
            } else {
                let t: u128 = age as u128;
                proof {
                    lemma_eased_bounds(age as int);
                    assert(t * t <= 750_000_000 * 750_000_000) by (nonlinear_arith)
                        requires
                            0 <= t <= 750_000_000,
                    ;
                }
                Some(FadeAmount { amount: t * t * (3 * LIVE_FADE as u128 - 2 * t) })
            }
        },
    }
}

proof fn lemma_eased_bounds(t: int)
    requires
        0 <= t <= LIVE_FADE,
    ensures
        0 <= eased(t) <= FADE_SCALE,
{
    let d = LIVE_FADE as int;
    assert(0 <= t * t * (3 * d - 2 * t) <= d * d * d) by (nonlinear_arith)
        requires
            0 <= t <= d,
    {
        assert(d * d * d - t * t * (3 * d - 2 * t) == (d - t) * (d - t) * (d + 2 * t))
            by (nonlinear_arith);
        assert((d - t) * (d - t) * (d + 2 * t) >= 0) by (nonlinear_arith)
            requires
                0 <= t <= d,
        ;
        assert(t * t * (3 * d - 2 * t) >= 0) by (nonlinear_arith)
            requires
                0 <= t <= d,
        ;
    }
    assert(750_000_000 * 750_000_000 * 750_000_000 == 421_875_000_000_000_000_000_000_000)
        by (nonlinear_arith);
}

/// A fade starts from nothing, never goes back, and comes to the whole; its second half mirrors its
/// first.
pub proof fn law_fade_eases_in_and_out(s: int, t: int)
    requires
        0 <= s <= t <= LIVE_FADE,
    ensures
        eased(0) == 0,
        eased(LIVE_FADE as int) == FADE_SCALE,
        0 <= eased(s) <= eased(t) <= FADE_SCALE,
        eased(t) + eased(LIVE_FADE - t) == FADE_SCALE,
{
    let d = LIVE_FADE as int;
    lemma_eased_bounds(s);
    lemma_eased_bounds(t);
    let rise = 3 * (d - t) * (t + s) + t * (t - s) + 2 * s * (t - s);
    assert(rise >= 0) by (nonlinear_arith)
        requires
            0 <= s <= t <= d,
            rise == 3 * (d - t) * (t + s) + t * (t - s) + 2 * s * (t - s),
    ;
    assert(rise == 3 * d * (t + s) - 2 * (t * t + t * s + s * s)) by (nonlinear_arith)
        requires
            rise == 3 * (d - t) * (t + s) + t * (t - s) + 2 * s * (t - s),
    ;
    assert((t - s) * (3 * d * (t + s) - 2 * (t * t + t * s + s * s)) == t * t * (3 * d - 2 * t) - s
        * s * (3 * d - 2 * s)) by (nonlinear_arith);
    assert((t - s) * rise >= 0) by (nonlinear_arith)
        requires
            s <= t,
            rise >= 0,
    ;
    assert(d * d * (3 * d - 2 * d) == d * d * d) by (nonlinear_arith);
    assert(t * t * (3 * d - 2 * t) + (d - t) * (d - t) * (3 * d - 2 * (d - t)) == d * d * d)
        by (nonlinear_arith);
    assert(d * d * d == 421_875_000_000_000_000_000_000_000) by (nonlinear_arith)
        requires
            d == 750_000_000,
    ;
}

/// The scale a view of this size, in units, is drawn at, as a fraction of pixels per unit: an
/// eighth of its pixels, or less where that would exceed the largest width or height.
pub open spec fn live_scale(width: int, height: int) -> (int, int) {
    least(
        least((1, LIVE_DOWNSCALE * UNITS_PER_PIXEL), (LIVE_MAX_WIDTH as int, width)),
        (LIVE_MAX_HEIGHT as int, height),
    )
}

/// How many pixels a side of `length` units is drawn with at `scale`.
pub open spec fn drawn_side(length: int, scale: (int, int)) -> int {
    let side = rounded(length * scale.0, scale.1);
    if side < LIVE_MIN_SIDE {
        LIVE_MIN_SIDE as int
    } else {
        side
    }
}

fn smaller(a: (i128, i128), b: (i128, i128)) -> (c: (i128, i128))
    requires
        0 < a.0 <= 320,
        0 < b.0 <= 320,
        0 < a.1 <= 0x7fff_ffff_ffff_ffff,
        0 < b.1 <= 0x7fff_ffff_ffff_ffff,
    ensures
        (c.0 as int, c.1 as int) == least((a.0 as int, a.1 as int), (b.0 as int, b.1 as int)),
        c == a || c == b,
{
    assert(0 <= a.0 * b.1 <= 320 * 0x7fff_ffff_ffff_ffff) by (nonlinear_arith)
        requires
            0 < a.0 <= 320,
            0 < b.1 <= 0x7fff_ffff_ffff_ffff,
    ;
    assert(0 <= b.0 * a.1 <= 320 * 0x7fff_ffff_ffff_ffff) by (nonlinear_arith)
        requires
            0 < b.0 <= 320,
            0 < a.1 <= 0x7fff_ffff_ffff_ffff,
    ;
    if b.0 * a.1 < a.0 * b.1 {
        b
    } else {
        a
    }
}

/// A side that is no longer than the scale allows is drawn with at most `most` pixels.
proof fn lemma_drawn_side(length: int, scale: (int, int), most: int)
    requires
        length >= 0,
        scale.0 > 0,
        scale.1 > 0,
        most >= LIVE_MIN_SIDE,
        length * scale.0 <= most * scale.1,
    ensures
        LIVE_MIN_SIDE <= drawn_side(length, scale) <= most,
        rounded(length * scale.0, scale.1) >= 0,
{
    let p = length * scale.0;
    let q = scale.1;
    assert(p >= 0) by (nonlinear_arith)
        requires
            length >= 0,
            scale.0 > 0,
            p == length * scale.0,
    ;
    let r = (2 * p + q) / (2 * q);
    assert(r <= most) by (nonlinear_arith)
        requires
            p <= most * q,
            q > 0,
            r == (2 * p + q) / (2 * q),
    ;
    assert(r >= 0) by (nonlinear_arith)
        requires
            p >= 0,
            q > 0,
            r == (2 * p + q) / (2 * q),
    ;
}

/// The scale keeps both sides within the largest size.
proof fn lemma_live_scale(width: int, height: int)
    requires
        width > 0,
        height > 0,
    ensures
        ({
            let scale = live_scale(width, height);
            &&& 0 < scale.0 <= 320
            &&& scale.1 > 0
            &&& width * scale.0 <= LIVE_MAX_WIDTH * scale.1
            &&& height * scale.0 <= LIVE_MAX_HEIGHT * scale.1
            &&& LIVE_DOWNSCALE * UNITS_PER_PIXEL * scale.0 <= scale.1
        }),
{
    let eighth = (1int, LIVE_DOWNSCALE * UNITS_PER_PIXEL);
    let wide = (LIVE_MAX_WIDTH as int, width);
    let high = (LIVE_MAX_HEIGHT as int, height);
    let first = least(eighth, wide);
    let scale = least(first, high);
    assert(eighth == (1int, 524288int));
    if less(wide, eighth) {
        assert(320 * 524288 < width) by (nonlinear_arith)
            requires
                less((320int, width), (1int, 524288int)),
        ;
    } else {
        assert(width <= 320 * 524288) by (nonlinear_arith)
            requires
                !less((320int, width), (1int, 524288int)),
        ;
    }
    assert(first.0 * width <= 320 * first.1) by (nonlinear_arith)
        requires
            first == (320int, width) || (first == (1int, 524288int) && width <= 320 * 524288),
    ;
    assert(524288 * first.0 <= first.1);
    assert(scale.0 * height <= 200 * scale.1) by (nonlinear_arith)
        requires
            scale == least(first, high),
            high == (200int, height),
            height > 0,
    ;
    if scale == first {
    } else {
        // 200 / height < first <= 320 / width
        assert(less(high, first));
        assert(200 * width <= 320 * height) by (nonlinear_arith)
            requires
                200 * first.1 < first.0 * height,
                first.0 * width <= 320 * first.1,
                first.0 > 0,
                first.1 > 0,
                width > 0,
                height > 0,
        ;
        assert(524288 * 200 <= height) by (nonlinear_arith)
            requires
                200 * first.1 < first.0 * height,
                524288 * first.0 <= first.1,
                first.0 > 0,
        ;
    }
    assert(width * scale.0 == scale.0 * width) by (nonlinear_arith);
    assert(height * scale.0 == scale.0 * height) by (nonlinear_arith);
}

/// The size, in pixels, a view is drawn with: an eighth of its own, at most 320 by 200 and at least
/// 16 by 16; `None` for a view less than a pixel wide or high.
pub fn drawable_size(view: Size) -> (drawn: Option<(u64, u64)>)
    ensures
        drawn is Some <==> view.width@ >= UNITS_PER_PIXEL && view.height@ >= UNITS_PER_PIXEL,
        drawn is Some ==> {
            let scale = live_scale(view.width@, view.height@);
            &&& (drawn->0).0 == drawn_side(view.width@, scale)
            &&& (drawn->0).1 == drawn_side(view.height@, scale)
            &&& LIVE_MIN_SIDE <= (drawn->0).0 <= LIVE_MAX_WIDTH
            &&& LIVE_MIN_SIDE <= (drawn->0).1 <= LIVE_MAX_HEIGHT
        },
{
    let width: i128 = view.width.units as i128;
    let height: i128 = view.height.units as i128;
    if width < UNITS_PER_PIXEL as i128 || height < UNITS_PER_PIXEL as i128 {
        return None;
    }
    let first = smaller(
        (1, LIVE_DOWNSCALE as i128 * UNITS_PER_PIXEL as i128),
        (LIVE_MAX_WIDTH as i128, width),
    );
    let scale = smaller(first, (LIVE_MAX_HEIGHT as i128, height));
    proof {
        lemma_live_scale(width as int, height as int);
        lemma_drawn_side(width as int, (scale.0 as int, scale.1 as int), LIVE_MAX_WIDTH as int);
        lemma_drawn_side(height as int, (scale.0 as int, scale.1 as int), LIVE_MAX_HEIGHT as int);
        assert(width * scale.0 <= 0x7fff_ffff_ffff_ffff * 320) by (nonlinear_arith)
            requires
                0 < width <= 0x7fff_ffff_ffff_ffff,
                0 < scale.0 <= 320,
        ;
        assert(height * scale.0 <= 0x7fff_ffff_ffff_ffff * 320) by (nonlinear_arith)
            requires
                0 < height <= 0x7fff_ffff_ffff_ffff,
                0 < scale.0 <= 320,
        ;
        assert(width * scale.0 > 0) by (nonlinear_arith)
            requires
                0 < width,
                0 < scale.0,
        ;
        assert(height * scale.0 > 0) by (nonlinear_arith)
            requires
                0 < height,
                0 < scale.0,
        ;
    }
    let drawn_width: i128 = (2 * (width * scale.0) + scale.1) / (2 * scale.1);
    let drawn_height: i128 = (2 * (height * scale.0) + scale.1) / (2 * scale.1);
    let least: i128 = LIVE_MIN_SIDE as i128;
    let drawn_width: i128 = if drawn_width < least {
        least
    } else {
        drawn_width
    };
    let drawn_height: i128 = if drawn_height < least {
        least
    } else {
        drawn_height
    };
    Some((drawn_width as u64, drawn_height as u64))
}

/// One live backdrop view.
pub struct LiveView {
    /// The handle of the native view.
    pub view: u64,
    pub live: LiveBackground,
    /// The rectangle, in the view's top-left coordinates, the style is laid out over; `None` is the
    /// view itself.
    pub cover: Option<Bounds>,
    pub wants_motion: bool,
    /// The picture last put on screen; it is also what a change fades out from.
    pub display: Option<Texture>,
    /// The new picture on its own while a fade composites it over `fading_from`.
    pub style_frame: Option<Texture>,
    pub fading_from: Option<Texture>,
    /// When the fade started, in nanoseconds.
    pub fade_started: Option<u64>,
}

/// What the shader is told about a frame.
#[derive(Clone, Copy, Debug, PartialEq, Eq, Structural)]
pub struct LiveUniforms {
    pub width: u64,
    pub height: u64,
    pub view_size: Size,
    pub cover: Bounds,
    pub phase: u64,
    pub period: u64,
    pub brightness: Level,
    pub first: Rgba,
    pub second: Rgba,
    pub third: Rgba,
}

/// What drawing one frame takes.
#[derive(Clone, Copy)]
pub struct FramePlan {
    pub style: &'static str,
    pub width: u64,
    pub height: u64,
    /// The layer's drawable has another size.
    pub resize_drawable: bool,
    /// The picture kept for the screen has another size, or there is none.
    pub new_display: bool,
    /// How far the running fade has come.
    pub fade: Option<FadeAmount>,
    /// The new picture is drawn on its own and composited over the one that fades out.
    pub composite: bool,
    /// The picture kept for the fade has another size, or there is none.
    pub new_style_frame: bool,
    pub uniforms: LiveUniforms,
}

pub open spec fn opaque_color(color: Rgb) -> Rgba {
    Rgba {
        red: color.red,
        green: color.green,
        blue: color.blue,
        alpha: Level { units: LEVEL_ONE },
    }
}

fn opaque_rgba(color: Rgb) -> (out: Rgba)
    ensures
        out == opaque_color(color),
{
    Rgba {
        red: color.red,
        green: color.green,
        blue: color.blue,
        alpha: Level { units: LEVEL_ONE },
    }
}

/// The rectangle a style is laid out over: `cover`, or the whole view.
pub open spec fn laid_out_over(cover: Option<Bounds>, view: Size) -> Bounds {
    match cover {
        Some(cover) => cover,
        None => Bounds {
            origin: Point { x: Pixels { units: 0 }, y: Pixels { units: 0 } },
            size: view,
        },
    }
}

/// What the shader is told: it depends on nothing but the settings, the view's size, the rectangle
/// the style is laid out over and the shared clock.
pub open spec fn uniforms_for(
    live: LiveBackground,
    cover: Option<Bounds>,
    view: Size,
    phase: u64,
) -> LiveUniforms {
    let scale = live_scale(view.width@, view.height@);
    LiveUniforms {
        width: drawn_side(view.width@, scale) as u64,
        height: drawn_side(view.height@, scale) as u64,
        view_size: view,
        cover: laid_out_over(cover, view),
        phase,
        period: LIVE_PERIOD,
        brightness: clamped_level(live.brightness),
        first: opaque_color(live.colors.first),
        second: opaque_color(live.colors.second),
        third: opaque_color(live.colors.third),
    }
}

/// Whether `plan` is what drawing `entry` takes, in a view of size `view` with a drawable of size
/// `drawable`, at the clock's `phase` and the time `now`.
pub open spec fn frame_planned(
    plan: FramePlan,
    entry: LiveView,
    view: Size,
    drawable: Size,
    phase: u64,
    now: u64,
) -> bool {
    let fading = entry.fade_started is Some && elapsed(entry.fade_started->0, now) < LIVE_FADE;
    &&& plan.style@ == entry.live.style@
    &&& plan.uniforms == uniforms_for(entry.live, entry.cover, view, phase)
    &&& plan.width == plan.uniforms.width
    &&& plan.height == plan.uniforms.height
    &&& LIVE_MIN_SIDE <= plan.width <= LIVE_MAX_WIDTH
    &&& LIVE_MIN_SIDE <= plan.height <= LIVE_MAX_HEIGHT
    &&& plan.resize_drawable <==> drawable.width@ != plan.width * UNITS_PER_PIXEL
        || drawable.height@ != plan.height * UNITS_PER_PIXEL
    &&& plan.new_display <==> !matches_size(entry.display, plan.width, plan.height)
    &&& plan.fade is Some <==> fading
    &&& fading ==> plan.fade->0.amount == eased(elapsed(entry.fade_started->0, now))
    &&& plan.composite <==> fading && entry.fading_from is Some
    &&& plan.new_style_frame <==> plan.composite && !matches_size(
        entry.style_frame,
        plan.width,
        plan.height,
    )
}

impl LiveView {
    /// A view that has drawn nothing yet.
    pub open spec fn is_fresh(self, view: u64, live: LiveBackground) -> bool {
        self == (LiveView {
            view,
            live,
            cover: None,
            wants_motion: false,
            display: None,
            style_frame: None,
            fading_from: None,
            fade_started: None,
        })
    }

    /// Whether the view needs the clock's timer.
    pub open spec fn is_active(self) -> bool {
        self.wants_motion || self.fade_started is Some
    }

    /// Whether one of the view's pictures is the texture with this handle.
    pub open spec fn uses(self, handle: u64) -> bool {
        ||| has_handle(self.display, handle)
        ||| has_handle(self.style_frame, handle)
        ||| has_handle(self.fading_from, handle)
    }

    /// The view once its fade is over.
    pub open spec fn without_fade(self) -> LiveView {
        LiveView { style_frame: None, fading_from: None, fade_started: None, ..self }
    }

    /// Whether `live` would be another picture than the one drawn now.
    pub open spec fn picture_changes(self, live: LiveBackground) -> bool {
        ||| self.live.style@ != live.style@
        ||| self.live.colors != live.colors
        ||| self.live.brightness != live.brightness
    }

    /// The view after its settings became `live`. With `fade`, whatever is on screen, a fade in
    /// progress included, is what a new picture fades in from; without it, a new picture is shown at
    /// once and ends a fade in progress.
    pub open spec fn with_settings(self, live: LiveBackground, fade: bool, now: u64) -> LiveView {
        if self.picture_changes(live) && fade && self.display is Some {
            LiveView {
                live,
                fading_from: self.display,
                display: None,
                fade_started: Some(now),
                ..self
            }
        } else if self.picture_changes(live) && !fade {
            LiveView { live, ..self.without_fade() }
        } else {
            LiveView { live, ..self }
        }
    }

    fn set_settings(&mut self, live: LiveBackground, fade: bool, now: u64)
        ensures
            *final(self) == old(self).with_settings(live, fade, now),
    {
        let picture_changes = !same_text(self.live.style.as_str(), live.style.as_str())
            || self.live.colors != live.colors || self.live.brightness != live.brightness;
        if picture_changes && fade && self.display.is_some() {
            self.fading_from = self.display.take();
            self.fade_started = Some(now);
        } else if picture_changes && !fade {
            self.fading_from = None;
            self.fade_started = None;
            self.style_frame = None;
        }
        self.live = live;
    }

    /// Works out one frame of a view of size `view` at the clock's `phase`, and ends a fade whose
    /// time is over. `drawable` is the size of the layer's drawable. `None`, with nothing changed,
    /// when the view is less than a pixel wide or high or its style is not one this platform draws.
    pub fn plan_frame(
        &mut self,
        view: Size,
        drawable: Size,
        phase: u64,
        now: u64,
    ) -> (plan: Option<FramePlan>)
        ensures
            plan is Some <==> view.width@ >= UNITS_PER_PIXEL && view.height@ >= UNITS_PER_PIXEL
                && is_live_style(old(self).live.style@),
            plan is None ==> *final(self) == *old(self),
            plan is Some ==> {
                let fading = old(self).fade_started is Some && elapsed(
                    old(self).fade_started->0,
                    now,
                ) < LIVE_FADE;
                let plan = plan->0;
                &&& *final(self) == if fading {
                    *old(self)
                } else {
                    old(self).without_fade()
                }
                &&& frame_planned(plan, *old(self), view, drawable, phase, now)
            },
    {
        let (width, height) = match drawable_size(view) {
            Some(drawn) => drawn,
            None => {
                return None;
            },
        };
        let style = match style_id(self.live.style.as_str()) {
            Some(style) => style,
            None => {
                return None;
            },
        };
        let fade = fade_amount(self.fade_started, now);
        if fade.is_none() {
            self.fading_from = None;
            self.fade_started = None;
            self.style_frame = None;
        }
        let brightness = clamp_level(self.live.brightness);
        let cover = match self.cover {
            Some(cover) => cover,
            None => Bounds {
                origin: Point { x: Pixels { units: 0 }, y: Pixels { units: 0 } },
                size: view,
            },
        };
        let uniforms = LiveUniforms {
            width,
            height,
            view_size: view,
            cover,
            phase,
            period: LIVE_PERIOD,
            brightness,
            first: opaque_rgba(self.live.colors.first),
            second: opaque_rgba(self.live.colors.second),
            third: opaque_rgba(self.live.colors.third),
        };
        let composite = fade.is_some() && self.fading_from.is_some();
        Some(
            FramePlan {
                style,
                width,
                height,
                resize_drawable: drawable.width.units != width as i64 * UNITS_PER_PIXEL
                    || drawable.height.units != height as i64 * UNITS_PER_PIXEL,
                new_display: !texture_matches(&self.display, width, height),
                fade,
                composite,
                new_style_frame: composite && !texture_matches(&self.style_frame, width, height),
                uniforms,
            },
        )
    }
}

/// The clock every live view shares.
#[derive(Clone, Copy, Debug, PartialEq, Eq, Structural)]
pub struct LiveClock {
    /// Where in the loop every style is.
    pub phase: u64,
    /// When the last tick that moved the clock was, in nanoseconds.
    pub last_tick: Option<u64>,
    /// Whether the timer runs.
    pub running: bool,
}

/// What becomes of the timer.
#[derive(Clone, Copy, Debug, PartialEq, Eq, Structural)]
pub enum TimerChange {
    Start,
    Stop,
    Keep,
}

/// `speed` brought between the slowest and the fastest.
pub open spec fn clamped_speed(speed: i64) -> int {
    if speed < MIN_SPEED {
        MIN_SPEED as int
    } else if speed > MAX_SPEED {
        MAX_SPEED as int
    } else {
        speed as int
    }
}

/// The time a tick at `now` moves the clock by: the time since the last tick, and nothing for the
/// first tick after a pause.
pub open spec fn tick_step(last_tick: Option<u64>, now: u64) -> int {
    match last_tick {
        Some(last) => if elapsed(last, now) > LIVE_MAX_STEP {
            0
        } else {
            elapsed(last, now)
        },
        None => 0,
    }
}

impl LiveClock {
    pub open spec fn wf(self) -> bool {
        self.phase < LIVE_PERIOD
    }

    /// The clock after a tick at `now` with motion at `speed`, or with none.
    pub open spec fn ticked(self, speed: Option<i64>, now: u64) -> LiveClock {
        match speed {
            Some(speed) => LiveClock {
                phase: ((self.phase + tick_step(self.last_tick, now) * clamped_speed(speed))
                    % LIVE_PERIOD as int) as u64,
                last_tick: Some(now),
                running: self.running,
            },
            None => LiveClock { last_tick: None, ..self },
        }
    }

    /// The clock once its timer runs exactly while `needed`.
    pub open spec fn with_timer(self, needed: bool) -> LiveClock {
        if needed == self.running {
            self
        } else {
            LiveClock { phase: self.phase, last_tick: None, running: needed }
        }
    }

    /// What `with_timer` asks of the timer.
    pub open spec fn timer_change(self, needed: bool) -> TimerChange {
        if needed && !self.running {
            TimerChange::Start
        } else if !needed && self.running {
            TimerChange::Stop
        } else {
            TimerChange::Keep
        }
    }

    /// A stopped clock at the start of the loop.
    pub fn new() -> (clock: LiveClock)
        ensures
            clock.wf(),
            clock == (LiveClock { phase: 0, last_tick: None, running: false }),
    {
        LiveClock { phase: 0, last_tick: None, running: false }
    }

    /// Only time someone could see the motion in moves the clock; a paused stretch, or the first
    /// tick after one, adds nothing, so motion resumes exactly where it stopped.
    pub fn tick(&mut self, speed: Option<i64>, now: u64)
        ensures
            *final(self) == old(self).ticked(speed, now),
            old(self).wf() || speed is Some ==> final(self).wf(),
    {
        match speed {
            Some(speed) => {
                let speed: u64 = if speed < MIN_SPEED {
                    MIN_SPEED as u64
                } else if speed > MAX_SPEED {
                    MAX_SPEED as u64
                } else {
                    speed as u64
                };
                let step: u64 = match self.last_tick {
                    Some(last) => {
                        let since: u64 = if now >= last {
                            now - last
                        } else {
                            0
                        };
                        if since > LIVE_MAX_STEP {
                            0
                        } else {
                            since
                        }
                    },
                    None => 0,
                };
                assert(0 <= step * speed <= 100_000_000 * 4_000_000) by (nonlinear_arith)
                    requires
                        0 <= step <= 100_000_000,
                        0 <= speed <= 4_000_000,
                ;
                let phase: u128 = (self.phase as u128 + (step * speed) as u128)
                    % LIVE_PERIOD as u128;
                self.phase = phase as u64;
                self.last_tick = Some(now);
            },
            None => {
                self.last_tick = None;
            },
        }
    }

    /// Runs the timer while it is needed, and stops it otherwise.
    pub fn set_timer(&mut self, needed: bool) -> (change: TimerChange)
        ensures
            *final(self) == old(self).with_timer(needed),
            change == old(self).timer_change(needed),
    {
        if needed && !self.running {
            self.running = true;
            self.last_tick = None;
            TimerChange::Start
        } else if !needed && self.running {
            self.running = false;
            self.last_tick = None;
            TimerChange::Stop
        } else {
            TimerChange::Keep
        }
    }
}

/// The clock never leaves its loop, and a tick moves it by at most the largest step at the fastest
/// speed; nothing but time and speed moves it.
pub proof fn law_clock_accumulates_time_times_speed(clock: LiveClock, speed: i64, now: u64)
    requires
        clock.wf(),
    ensures
        clock.ticked(Some(speed), now).wf(),
        ({
            let moved = tick_step(clock.last_tick, now) * clamped_speed(speed);
            &&& 0 <= moved <= LIVE_MAX_STEP * MAX_SPEED
            &&& clock.ticked(Some(speed), now).phase == if clock.phase + moved < LIVE_PERIOD {
                clock.phase + moved
            } else {
                clock.phase + moved - LIVE_PERIOD
            }
        }),
{
    let step = tick_step(clock.last_tick, now);
    let rate = clamped_speed(speed);
    assert(0 <= step * rate <= 100_000_000 * 4_000_000) by (nonlinear_arith)
        requires
            0 <= step <= 100_000_000,
            0 <= rate <= 4_000_000,
    ;
}

/// A pause holds the clock: after a tick without motion, once the timer stopped and started again,
/// or when no tick came for too long, the next tick with motion leaves the phase where it was,
/// however late it comes.
pub proof fn law_pause_holds_the_clock(clock: LiveClock, speed: i64, paused: u64, resumed: u64)
    requires
        clock.wf(),
    ensures
        clock.ticked(None, paused).phase == clock.phase,
        clock.ticked(None, paused).ticked(Some(speed), resumed).phase == clock.phase,
        clock.with_timer(!clock.running).phase == clock.phase,
        clock.with_timer(!clock.running).ticked(Some(speed), resumed).phase == clock.phase,
        clock.last_tick is Some && resumed > clock.last_tick->0 + LIVE_MAX_STEP ==> clock.ticked(
            Some(speed),
            resumed,
        ).phase == clock.phase,
{
    let rate = clamped_speed(speed);
    assert(0 * rate == 0) by (nonlinear_arith);
}

/// Two ticks move the clock as far as one tick over the whole time would: how often the timer
/// fires does not change the motion.
pub proof fn law_ticks_add_up(clock: LiveClock, speed: i64, first: u64, second: u64)
    requires
        clock.wf(),
        clock.last_tick is Some,
        clock.last_tick->0 <= first <= second,
        second - clock.last_tick->0 <= LIVE_MAX_STEP,
    ensures
        clock.ticked(Some(speed), first).ticked(Some(speed), second) == clock.ticked(
            Some(speed),
            second,
        ),
{
    let rate = clamped_speed(speed);
    let a = first - clock.last_tick->0;
    let b = second - first;
    law_clock_accumulates_time_times_speed(clock, speed, first);
    law_clock_accumulates_time_times_speed(clock.ticked(Some(speed), first), speed, second);
    law_clock_accumulates_time_times_speed(clock, speed, second);
    assert((a + b) * rate == a * rate + b * rate) by (nonlinear_arith);
}

/// The clock after a run of ticks, each with motion at a speed or with none.
pub open spec fn after_ticks(clock: LiveClock, ticks: Seq<(Option<i64>, u64)>) -> LiveClock
    decreases ticks.len(),
{
    if ticks.len() == 0 {
        clock
    } else {
        after_ticks(clock, ticks.drop_last()).ticked(ticks.last().0, ticks.last().1)
    }
}

/// How far a run of ticks moves the clock in all, loops counted in full.
pub open spec fn travelled(clock: LiveClock, ticks: Seq<(Option<i64>, u64)>) -> int
    decreases ticks.len(),
{
    if ticks.len() == 0 {
        0
    } else {
        let before = after_ticks(clock, ticks.drop_last());
        travelled(clock, ticks.drop_last()) + match ticks.last().0 {
            Some(speed) => tick_step(before.last_tick, ticks.last().1) * clamped_speed(speed),
            None => 0,
        }
    }
}

/// The loop never breaks: whatever the ticks and speeds, the phase is where the start and the way
/// travelled put it in the loop, and a whole number of periods brings back the phase it started
/// from.
pub proof fn law_clock_loops(clock: LiveClock, ticks: Seq<(Option<i64>, u64)>)
    requires
        clock.wf(),
    ensures
        after_ticks(clock, ticks).wf(),
        after_ticks(clock, ticks).phase == (clock.phase + travelled(clock, ticks))
            % LIVE_PERIOD as int,
        travelled(clock, ticks) % LIVE_PERIOD as int == 0 ==> after_ticks(clock, ticks).phase
            == clock.phase,
    decreases ticks.len(),
{
    let period = LIVE_PERIOD as int;
    if ticks.len() > 0 {
        law_clock_loops(clock, ticks.drop_last());
        let before = after_ticks(clock, ticks.drop_last());
        let way = travelled(clock, ticks.drop_last());
        match ticks.last().0 {
            Some(speed) => {
                let moved = tick_step(before.last_tick, ticks.last().1) * clamped_speed(speed);
                vstd::arithmetic::div_mod::lemma_add_mod_noop(clock.phase + way, moved, period);
                vstd::arithmetic::div_mod::lemma_add_mod_noop(
                    (clock.phase + way) % period,
                    moved,
                    period,
                );
                vstd::arithmetic::div_mod::lemma_mod_twice(clock.phase + way, period);
            },
            None => {},
        }
    }
    let total = travelled(clock, ticks);
    vstd::arithmetic::div_mod::lemma_add_mod_noop(clock.phase as int, total, period);
    vstd::arithmetic::div_mod::lemma_small_mod(clock.phase as nat, LIVE_PERIOD as nat);
}

/// Where the first view with this handle is, looking from index `from` on.
pub open spec fn view_index_from(views: Seq<LiveView>, view: u64, from: int) -> Option<int>
    decreases views.len() - from,
{
    if from < 0 || from >= views.len() {
        None
    } else if views[from].view == view {
        Some(from)
    } else {
        view_index_from(views, view, from + 1)
    }
}

pub open spec fn view_index(views: Seq<LiveView>, view: u64) -> Option<int> {
    view_index_from(views, view, 0)
}

proof fn lemma_view_index_skips(views: Seq<LiveView>, view: u64, from: int, to: int)
    requires
        0 <= from <= to <= views.len(),
        forall|i: int| from <= i < to ==> (#[trigger] views[i]).view != view,
    ensures
        view_index_from(views, view, from) == view_index_from(views, view, to),
    decreases to - from,
{
    if from < to {
        lemma_view_index_skips(views, view, from + 1, to);
    }
}

/// The speed of the first view that moves, from index `from` on.
pub open spec fn moving_speed_from(views: Seq<LiveView>, from: int) -> Option<i64>
    decreases views.len() - from,
{
    if from < 0 || from >= views.len() {
        None
    } else if views[from].wants_motion {
        Some(views[from].live.speed)
    } else {
        moving_speed_from(views, from + 1)
    }
}

proof fn lemma_moving_speed_skips(views: Seq<LiveView>, from: int, to: int)
    requires
        0 <= from <= to <= views.len(),
        forall|i: int| from <= i < to ==> !(#[trigger] views[i]).wants_motion,
    ensures
        moving_speed_from(views, from) == moving_speed_from(views, to),
    decreases to - from,
{
    if from < to {
        lemma_moving_speed_skips(views, from + 1, to);
    }
}

/// Whether any view moves or fades.
pub open spec fn any_active(views: Seq<LiveView>) -> bool {
    exists|i: int| 0 <= i < views.len() && (#[trigger] views[i]).is_active()
}

/// The handles of the views that move or fade, in order.
pub open spec fn active_handles(views: Seq<LiveView>) -> Seq<u64>
    decreases views.len(),
{
    if views.len() == 0 {
        Seq::empty()
    } else if views.last().is_active() {
        active_handles(views.drop_last()).push(views.last().view)
    } else {
        active_handles(views.drop_last())
    }
}

/// The views but those with this handle.
pub open spec fn without_view(views: Seq<LiveView>, view: u64) -> Seq<LiveView> {
    views.filter(|entry: LiveView| entry.view != view)
}

proof fn lemma_without_view_removes(views: Seq<LiveView>, view: u64, i: int)
    requires
        0 <= i < views.len(),
        views[i].view == view,
    ensures
        without_view(views.remove(i), view) == without_view(views, view),
{
    let keep = |entry: LiveView| entry.view != view;
    let head = views.take(i);
    let one = seq![views[i]];
    let tail = views.skip(i + 1);
    assert(views =~= head + one + tail);
    assert(views.remove(i) =~= head + tail);
    assert(one.filter(keep) =~= Seq::<LiveView>::empty()) by {
        reveal_with_fuel(Seq::filter, 2);
    }
    Seq::filter_distributes_over_add(head + one, tail, keep);
    Seq::filter_distributes_over_add(head, one, keep);
    Seq::filter_distributes_over_add(head, tail, keep);
    assert(head.filter(keep) + one.filter(keep) =~= head.filter(keep));
}

proof fn lemma_without_view_keeps(views: Seq<LiveView>, view: u64)
    requires
        forall|i: int| 0 <= i < views.len() ==> (#[trigger] views[i]).view != view,
    ensures
        without_view(views, view) == views,
    decreases views.len(),
{
    reveal(Seq::filter);
    if views.len() > 0 {
        lemma_without_view_keeps(views.drop_last(), view);
        assert(views.drop_last().push(views.last()) =~= views);
    }
}

/// Every live backdrop view, and the clock they share.
pub struct LiveBackdrop {
    pub views: Vec<LiveView>,
    pub clock: LiveClock,
}

impl LiveBackdrop {
    pub open spec fn wf(self) -> bool {
        self.clock.wf()
    }

    /// The index of the view with this handle.
    pub open spec fn find(self, view: u64) -> Option<int> {
        view_index(self.views@, view)
    }

    /// The backdrop once its timer runs exactly while a view moves or fades.
    pub open spec fn timer_settled(self) -> bool {
        self.clock.running == any_active(self.views@)
    }

    pub fn new() -> (backdrop: LiveBackdrop)
        ensures
            backdrop.wf(),
            backdrop.timer_settled(),
            backdrop.views@ == Seq::<LiveView>::empty(),
            backdrop.clock == (LiveClock { phase: 0, last_tick: None, running: false }),
    {
        LiveBackdrop { views: Vec::new(), clock: LiveClock::new() }
    }

    fn position(&self, view: u64) -> (index: Option<usize>)
        ensures
            match index {
                Some(i) => i < self.views.len() && self.find(view) == Some(i as int)
                    && self.views@[i as int].view == view,
                None => self.find(view) is None && forall|i: int|
                    0 <= i < self.views.len() ==> (#[trigger] self.views@[i]).view != view,
            },
    {
        let mut i: usize = 0;
        while i < self.views.len()
            invariant
                i <= self.views.len(),
                forall|j: int| 0 <= j < i ==> (#[trigger] self.views@[j]).view != view,
            decreases self.views.len() - i,
        {
            if self.views[i].view == view {
                proof {
                    lemma_view_index_skips(self.views@, view, 0, i as int);
                }
                return Some(i);
            }
            i = i + 1;
        }
        proof {
            lemma_view_index_skips(self.views@, view, 0, i as int);
        }
        None
    }

    /// Adds a view drawing `live`. Returns false, with nothing added, when the style is not one
    /// this platform draws or has no pipeline.
    pub fn create_view(
        &mut self,
        view: u64,
        live: LiveBackground,
        pipeline_ready: bool,
    ) -> (created: bool)
        ensures
            created == (is_live_style(live.style@) && pipeline_ready),
            final(self).clock == old(self).clock,
            !created ==> final(self).views@ == old(self).views@,
            created ==> {
                &&& final(self).views.len() == old(self).views.len() + 1
                &&& final(self).views@.drop_last() == old(self).views@
                &&& final(self).views@.last().is_fresh(view, live)
            },
    {
        if style_id(live.style.as_str()).is_none() || !pipeline_ready {
            return false;
        }
        self.views.push(
            LiveView {
                view,
                live,
                cover: None,
                wants_motion: false,
                display: None,
                style_frame: None,
                fading_from: None,
                fade_started: None,
            },
        );
        assert(self.views@.drop_last() =~= old(self).views@);
        true
    }

    /// Runs the shared timer while any live view may move or is fading, and stops it otherwise.
    pub fn update_clock(&mut self) -> (change: TimerChange)
        ensures
            final(self).views == old(self).views,
            final(self).clock == old(self).clock.with_timer(any_active(old(self).views@)),
            change == old(self).clock.timer_change(any_active(old(self).views@)),
            final(self).timer_settled(),
            final(self).clock.phase == old(self).clock.phase,
    {
        let mut any = false;
        let mut i: usize = 0;
        while i < self.views.len()
            invariant
                i <= self.views.len(),
                self.views == old(self).views,
                self.clock == old(self).clock,
                any == exists|j: int| 0 <= j < i && (#[trigger] self.views@[j]).is_active(),
            decreases self.views.len() - i,
        {
            if self.views[i].wants_motion || self.views[i].fade_started.is_some() {
                assert(self.views@[i as int].is_active());
                any = true;
            }
            i = i + 1;
        }
        self.clock.set_timer(any)
    }

    /// Stops `view` drawing. Runs once: when the view is removed, or when it goes away without
    /// being removed; `None` when it was not, or no longer, there.
    pub fn detach(&mut self, view: u64) -> (removed: Option<TimerChange>)
        ensures
            removed is Some <==> old(self).find(view) is Some,
            removed is None ==> *final(self) == *old(self),
            removed is Some ==> {
                let rest = without_view(old(self).views@, view);
                &&& final(self).views@ == rest
                &&& final(self).clock == old(self).clock.with_timer(any_active(rest))
                &&& removed->0 == old(self).clock.timer_change(any_active(rest))
                &&& final(self).timer_settled()
            },
            final(self).find(view) is None,
            final(self).clock.phase == old(self).clock.phase,
    {
        if self.position(view).is_none() {
            return None;
        }
        let mut i: usize = 0;
        while i < self.views.len()
            invariant
                i <= self.views.len(),
                self.clock == old(self).clock,
                without_view(self.views@, view) == without_view(old(self).views@, view),
                forall|j: int| 0 <= j < i ==> (#[trigger] self.views@[j]).view != view,
            decreases self.views.len() - i,
        {
            if self.views[i].view == view {
                proof {
                    lemma_without_view_removes(self.views@, view, i as int);
                }
                let ghost before = self.views@;
                self.views.remove(i);
                assert(forall|j: int| 0 <= j < i ==> #[trigger] self.views@[j] == before[j]);
            } else {
                i = i + 1;
            }
        }
        proof {
            lemma_without_view_keeps(self.views@, view);
            lemma_view_index_skips(self.views@, view, 0, self.views.len() as int);
        }
        Some(self.update_clock())
    }

    /// The style, colours, brightness, speed or battery rule `view` draws with. A new picture fades
    /// in from the one on screen (at once under Reduce Motion). Returns false when the new style is
    /// not one this platform draws, or has no pipeline, so the window can leave the live backdrop.
    pub fn update(
        &mut self,
        view: u64,
        live: LiveBackground,
        pipeline_ready: bool,
        reduce_motion: bool,
        now: u64,
    ) -> (drawn: bool)
        ensures
            drawn == (is_live_style(live.style@) && pipeline_ready),
            final(self).clock == old(self).clock,
            final(self).views@ == match old(self).find(view) {
                Some(i) => if drawn {
                    old(self).views@.update(
                        i,
                        old(self).views@[i].with_settings(live, !reduce_motion, now),
                    )
                } else {
                    old(self).views@
                },
                None => old(self).views@,
            },
            drawn && !reduce_motion && old(self).find(view) is Some ==> {
                let before = old(self).views@[old(self).find(view)->0];
                let after = final(self).views@[old(self).find(view)->0];
                before.display is Some && (before.live.style@ != live.style@ || before.live.colors
                    != live.colors || before.live.brightness != live.brightness)
                    ==> after.fading_from == before.display && after.fade_started == Some(now)
            },
            drawn && reduce_motion && old(self).find(view) is Some ==> {
                let before = old(self).views@[old(self).find(view)->0];
                let after = final(self).views@[old(self).find(view)->0];
                before.live.style@ != live.style@ || before.live.colors != live.colors
                    || before.live.brightness != live.brightness ==> after.fading_from is None
                    && after.fade_started is None && after.display == before.display
            },
    {
        if style_id(live.style.as_str()).is_none() || !pipeline_ready {
            return false;
        }
        match self.position(view) {
            Some(i) => {
                self.views[i].set_settings(live, !reduce_motion, now);
            },
            None => {},
        }
        true
    }

    /// The rectangle, in window coordinates with the origin at the top left, the style is laid out
    /// over, for a window laid over part of another that must line up with it; `None` covers the
    /// view. Returns whether that is another rectangle than before, so the view is drawn again.
    pub fn set_cover(&mut self, view: u64, cover: Option<Bounds>) -> (changed: bool)
        ensures
            final(self).clock == old(self).clock,
            changed <==> old(self).find(view) is Some && old(self).views@[old(self).find(
                view,
            )->0].cover != cover,
            final(self).views@ == match old(self).find(view) {
                Some(i) => old(self).views@.update(
                    i,
                    LiveView { cover, ..old(self).views@[i] },
                ),
                None => old(self).views@,
            },
    {
        match self.position(view) {
            Some(i) => {
                let changed = !same_rect(self.views[i].cover, cover);
                self.views[i].cover = cover;
                changed
            },
            None => false,
        }
    }

    /// Whether `view` moves on a charger only.
    pub fn only_on_power(&self, view: u64) -> (rule: Option<bool>)
        ensures
            rule == match self.find(view) {
                Some(i) => Some(self.views@[i].live.only_on_power),
                None => None,
            },
    {
        match self.position(view) {
            Some(i) => Some(self.views[i].live.only_on_power),
            None => None,
        }
    }

    /// Takes over whether `view` may move, then starts or stops the shared clock. Nothing happens
    /// for a view that is not there.
    pub fn refresh(&mut self, view: u64, may_animate: bool) -> (change: TimerChange)
        ensures
            match old(self).find(view) {
                Some(i) => {
                    let views = old(self).views@.update(
                        i,
                        LiveView { wants_motion: may_animate, ..old(self).views@[i] },
                    );
                    &&& final(self).views@ == views
                    &&& final(self).clock == old(self).clock.with_timer(any_active(views))
                    &&& change == old(self).clock.timer_change(any_active(views))
                    &&& final(self).timer_settled()
                },
                None => *final(self) == *old(self) && change == TimerChange::Keep,
            },
            final(self).clock.phase == old(self).clock.phase,
    {
        match self.position(view) {
            Some(i) => {
                self.views[i].wants_motion = may_animate;
                self.update_clock()
            },
            None => TimerChange::Keep,
        }
    }

    /// The handle of every view.
    pub fn handles(&self) -> (handles: Vec<u64>)
        ensures
            handles@ == self.views@.map_values(|entry: LiveView| entry.view),
    {
        let mut handles: Vec<u64> = Vec::new();
        let mut i: usize = 0;
        while i < self.views.len()
            invariant
                i <= self.views.len(),
                handles.len() == i,
                forall|j: int| 0 <= j < i ==> #[trigger] handles@[j] == self.views@[j].view,
            decreases self.views.len() - i,
        {
            handles.push(self.views[i].view);
            i = i + 1;
        }
        assert(handles@ =~= self.views@.map_values(|entry: LiveView| entry.view));
        handles
    }

    /// One frame of `view`, whose native view has size `size`, at the shared clock's phase.
    pub fn plan_frame(
        &mut self,
        view: u64,
        size: Size,
        drawable: Size,
        now: u64,
    ) -> (plan: Option<FramePlan>)
        ensures
            final(self).clock == old(self).clock,
            plan is Some <==> old(self).find(view) is Some && size.width@ >= UNITS_PER_PIXEL
                && size.height@ >= UNITS_PER_PIXEL && is_live_style(
                old(self).views@[old(self).find(view)->0].live.style@,
            ),
            plan is None ==> final(self).views@ == old(self).views@,
            plan is Some ==> {
                let i = old(self).find(view)->0;
                let before = old(self).views@[i];
                let fading = before.fade_started is Some && elapsed(before.fade_started->0, now)
                    < LIVE_FADE;
                &&& final(self).views@ == old(self).views@.update(
                    i,
                    if fading {
                        before
                    } else {
                        before.without_fade()
                    },
                )
                &&& frame_planned(plan->0, before, size, drawable, old(self).clock.phase, now)
            },
    {
        match self.position(view) {
            Some(i) => {
                let phase = self.clock.phase;
                let plan = self.views[i].plan_frame(size, drawable, phase, now);
                assert(plan is None ==> self.views@ =~= old(self).views@);
                plan
            },
            None => None,
        }
    }

    /// Whether any view still uses the texture with this handle.
    pub fn uses_texture(&self, handle: u64) -> (used: bool)
        ensures
            used == exists|i: int|
                0 <= i < self.views.len() && (#[trigger] self.views@[i]).uses(handle),
    {
        let mut i: usize = 0;
        while i < self.views.len()
            invariant
                i <= self.views.len(),
                forall|j: int| 0 <= j < i ==> !(#[trigger] self.views@[j]).uses(handle),
            decreases self.views.len() - i,
        {
            let view = &self.views[i];
            if is_texture(view.display, handle) || is_texture(view.style_frame, handle)
                || is_texture(view.fading_from, handle) {
                assert(self.views@[i as int].uses(handle));
                return true;
            }
            assert(!self.views@[i as int].uses(handle));
            i = i + 1;
        }
        false
    }

    /// Keeps `texture` as the picture `view` puts on screen.
    pub fn set_display(&mut self, view: u64, texture: Texture)
        ensures
            final(self).clock == old(self).clock,
            final(self).views@ == match old(self).find(view) {
                Some(i) => old(self).views@.update(
                    i,
                    LiveView { display: Some(texture), ..old(self).views@[i] },
                ),
                None => old(self).views@,
            },
    {
        match self.position(view) {
            Some(i) => {
                self.views[i].display = Some(texture);
            },
            None => {},
        }
    }

    /// Keeps `texture` as the new picture of `view`'s fade.
    pub fn set_style_frame(&mut self, view: u64, texture: Texture)
        ensures
            final(self).clock == old(self).clock,
            final(self).views@ == match old(self).find(view) {
                Some(i) => old(self).views@.update(
                    i,
                    LiveView { style_frame: Some(texture), ..old(self).views@[i] },
                ),
                None => old(self).views@,
            },
    {
        match self.position(view) {
            Some(i) => {
                self.views[i].style_frame = Some(texture);
            },
            None => {},
        }
    }

    /// Advances the clock by the speed of the first view that moves, and returns the views to draw:
    /// those that move or fade.
    pub fn tick(&mut self, now: u64) -> (drawn: Vec<u64>)
        ensures
            old(self).wf() ==> final(self).wf(),
            final(self).views == old(self).views,
            final(self).clock == old(self).clock.ticked(
                moving_speed_from(old(self).views@, 0),
                now,
            ),
            drawn@ == active_handles(old(self).views@),
    {
        let mut speed: Option<i64> = None;
        let mut drawn: Vec<u64> = Vec::new();
        let mut i: usize = 0;
        while i < self.views.len()
            invariant
                i <= self.views.len(),
                *self == *old(self),
                drawn@ == active_handles(self.views@.take(i as int)),
                match speed {
                    Some(_) => speed == moving_speed_from(self.views@, 0),
                    None => forall|j: int| 0 <= j < i ==> !(#[trigger] self.views@[j]).wants_motion,
                },
            decreases self.views.len() - i,
        {
            if speed.is_none() && self.views[i].wants_motion {
                proof {
                    lemma_moving_speed_skips(self.views@, 0, i as int);
                }
                speed = Some(self.views[i].live.speed);
            }
            let ghost now_seen = self.views@.take(i as int + 1);
            assert(now_seen.drop_last() =~= self.views@.take(i as int));
            if self.views[i].wants_motion || self.views[i].fade_started.is_some() {
                drawn.push(self.views[i].view);
            }
            i = i + 1;
        }
        proof {
            assert(self.views@.take(i as int) =~= self.views@);
            if speed is None {
                lemma_moving_speed_skips(self.views@, 0, i as int);
            }
        }
        self.clock.tick(speed, now);
        drawn
    }
}

/// Views of one size that lay the same settings out over the same rectangle draw the same frame,
/// whichever of them covers it as its own and whenever they draw it: every view reads the one clock.
pub proof fn law_views_share_one_picture(
    a: LiveView,
    b: LiveView,
    plan_a: FramePlan,
    plan_b: FramePlan,
    view: Size,
    drawable_a: Size,
    drawable_b: Size,
    phase: u64,
    now_a: u64,
    now_b: u64,
)
    requires
        a.live.style@ == b.live.style@,
        a.live.colors == b.live.colors,
        a.live.brightness == b.live.brightness,
        laid_out_over(a.cover, view) == laid_out_over(b.cover, view),
        frame_planned(plan_a, a, view, drawable_a, phase, now_a),
        frame_planned(plan_b, b, view, drawable_b, phase, now_b),
    ensures
        plan_a.style@ == plan_b.style@,
        plan_a.uniforms == plan_b.uniforms,
{
}

/// A change of style, colours or brightness never snaps: the first frame after it still shows the
/// picture that was on screen, even in the middle of another change.
pub proof fn law_change_starts_from_the_screen(
    entry: LiveView,
    live: LiveBackground,
    plan: FramePlan,
    view: Size,
    drawable: Size,
    phase: u64,
    now: u64,
)
    requires
        entry.picture_changes(live),
        entry.display is Some,
        frame_planned(plan, entry.with_settings(live, true, now), view, drawable, phase, now),
    ensures
        entry.with_settings(live, true, now).fading_from == entry.display,
        plan.composite,
        plan.fade == Some(FadeAmount { amount: 0 }),
{
    assert(eased(0) == 0) by (nonlinear_arith);
}

/// Under Reduce Motion a new picture is shown at once: the first frame after the change is the new
/// style alone, even in the middle of a fade.
pub proof fn law_reduced_motion_shows_the_change_at_once(
    entry: LiveView,
    live: LiveBackground,
    plan: FramePlan,
    view: Size,
    drawable: Size,
    phase: u64,
    changed: u64,
    now: u64,
)
    requires
        entry.picture_changes(live),
        frame_planned(plan, entry.with_settings(live, false, changed), view, drawable, phase, now),
    ensures
        plan.style@ == live.style@,
        plan.fade is None,
        !plan.composite,
{
}

/// A change of speed or of the battery rule alone touches neither the picture nor a running fade.
pub proof fn law_other_settings_keep_the_picture(
    entry: LiveView,
    live: LiveBackground,
    fade: bool,
    now: u64,
)
    requires
        !entry.picture_changes(live),
    ensures
        entry.with_settings(live, fade, now) == (LiveView { live, ..entry }),
{
}

/// A view whose fade is over needs the timer only if it moves.
pub proof fn law_finished_fade_frees_the_timer(entry: LiveView)
    ensures
        entry.without_fade().is_active() == entry.wants_motion,
        entry.without_fade().display == entry.display,
{
}

/// The styles that are drawn are these eight and no other.
pub proof fn law_eight_styles_are_drawn(style: Seq<char>)
    ensures
        is_live_style(style) <==> seq![
            "aurora"@,
            "ink"@,
            "drift"@,
            "nebula"@,
            "silk"@,
            "bokeh"@,
            "waves"@,
            "mesh"@,
        ].contains(style),
{
    let styles = seq![
        "aurora"@,
        "ink"@,
        "drift"@,
        "nebula"@,
        "silk"@,
        "bokeh"@,
        "waves"@,
        "mesh"@,
    ];
    assert(styles[0] == "aurora"@ && styles[1] == "ink"@ && styles[2] == "drift"@);
    assert(styles[3] == "nebula"@ && styles[4] == "silk"@ && styles[5] == "bokeh"@);
    assert(styles[6] == "waves"@ && styles[7] == "mesh"@);
}

/// A new style, any new part of any of the three colours, or another brightness fades in from the
/// picture on screen, from the moment of the change on; whatever faded before is no longer what is
/// faded from.
pub proof fn law_any_change_of_the_picture_fades(
    entry: LiveView,
    live: LiveBackground,
    now: u64,
)
    requires
        entry.display is Some,
        entry.live.style@ != live.style@ || entry.live.colors.first.red.units
            != live.colors.first.red.units || entry.live.colors.first.green.units
            != live.colors.first.green.units || entry.live.colors.first.blue.units
            != live.colors.first.blue.units || entry.live.colors.second.red.units
            != live.colors.second.red.units || entry.live.colors.second.green.units
            != live.colors.second.green.units || entry.live.colors.second.blue.units
            != live.colors.second.blue.units || entry.live.colors.third.red.units
            != live.colors.third.red.units || entry.live.colors.third.green.units
            != live.colors.third.green.units || entry.live.colors.third.blue.units
            != live.colors.third.blue.units || entry.live.brightness.units
            != live.brightness.units,
    ensures
        ({
            let after = entry.with_settings(live, true, now);
            &&& after.fading_from == entry.display
            &&& after.fade_started == Some(now)
            &&& after.display is None
            &&& after.live == live
            &&& after.view == entry.view
            &&& after.cover == entry.cover
            &&& after.wants_motion == entry.wants_motion
            &&& after.style_frame == entry.style_frame
        }),
{
}

/// Under Reduce Motion no change fades: a new style, colour or brightness leaves no fade behind, and
/// the picture kept for the screen stays the one that is drawn into. A first picture does not fade
/// either: there is nothing on screen for it to fade in from.
pub proof fn law_no_fade_without_motion_or_picture(
    entry: LiveView,
    live: LiveBackground,
    now: u64,
)
    requires
        entry.live.style@ != live.style@ || entry.live.colors != live.colors
            || entry.live.brightness.units != live.brightness.units,
    ensures
        ({
            let after = entry.with_settings(live, false, now);
            &&& after.fading_from is None
            &&& after.fade_started is None
            &&& after.style_frame is None
            &&& after.display == entry.display
            &&& after.live == live
            &&& after.view == entry.view
            &&& after.cover == entry.cover
            &&& after.wants_motion == entry.wants_motion
        }),
        entry.display is None ==> {
            let after = entry.with_settings(live, true, now);
            &&& after.fading_from == entry.fading_from
            &&& after.fade_started == entry.fade_started
            &&& after.display is None
            &&& after.live == live
        },
{
}

/// Settings with the same style, colours and brightness change neither the pictures nor a fade, with
/// or without Reduce Motion.
pub proof fn law_same_picture_does_not_fade(
    entry: LiveView,
    live: LiveBackground,
    fade: bool,
    now: u64,
)
    requires
        entry.live.style@ == live.style@,
        entry.live.colors == live.colors,
        entry.live.brightness.units == live.brightness.units,
    ensures
        ({
            let after = entry.with_settings(live, fade, now);
            &&& after.display == entry.display
            &&& after.style_frame == entry.style_frame
            &&& after.fading_from == entry.fading_from
            &&& after.fade_started == entry.fade_started
            &&& after.live == live
            &&& after.view == entry.view
            &&& after.cover == entry.cover
            &&& after.wants_motion == entry.wants_motion
        }),
{
}

/// A frame is drawn in the colours of the settings, each in its own place and part by part, and
/// none of them lets anything through.
pub proof fn law_frame_has_the_colors_of_its_settings(
    plan: FramePlan,
    entry: LiveView,
    view: Size,
    drawable: Size,
    phase: u64,
    now: u64,
)
    requires
        frame_planned(plan, entry, view, drawable, phase, now),
    ensures
        plan.uniforms.first.red == entry.live.colors.first.red,
        plan.uniforms.first.green == entry.live.colors.first.green,
        plan.uniforms.first.blue == entry.live.colors.first.blue,
        plan.uniforms.first.alpha.units == LEVEL_ONE,
        plan.uniforms.second.red == entry.live.colors.second.red,
        plan.uniforms.second.green == entry.live.colors.second.green,
        plan.uniforms.second.blue == entry.live.colors.second.blue,
        plan.uniforms.second.alpha.units == LEVEL_ONE,
        plan.uniforms.third.red == entry.live.colors.third.red,
        plan.uniforms.third.green == entry.live.colors.third.green,
        plan.uniforms.third.blue == entry.live.colors.third.blue,
        plan.uniforms.third.alpha.units == LEVEL_ONE,
        LEVEL_ONE == 4_294_967_296,
{
}

/// A colour is drawn the same in whichever of the three places it stands, and colours that differ in
/// any part are drawn differently.
pub proof fn law_colors_stay_apart(a: Rgb, b: Rgb)
    ensures
        opaque_color(a).red == a.red,
        opaque_color(a).green == a.green,
        opaque_color(a).blue == a.blue,
        opaque_color(a).alpha.units == 4_294_967_296,
        opaque_color(a) == opaque_color(b) <==> a == b,
{
}

/// A frame is of the view's style and size, at the clock's phase in a loop of two minutes, as bright
/// as the settings say but no darker than black and no brighter than the full level, and laid out over
/// the view's cover, or over the view itself where it has none.
pub proof fn law_frame_is_of_its_view(
    plan: FramePlan,
    entry: LiveView,
    view: Size,
    drawable: Size,
    phase: u64,
    now: u64,
)
    requires
        frame_planned(plan, entry, view, drawable, phase, now),
    ensures
        plan.style@ == entry.live.style@,
        plan.uniforms.view_size.width.units == view.width.units,
        plan.uniforms.view_size.height.units == view.height.units,
        plan.uniforms.phase == phase,
        plan.uniforms.period == 120 * 1_000_000_000 * 1_000_000,
        0 <= entry.live.brightness.units <= 4_294_967_296 ==> plan.uniforms.brightness.units
            == entry.live.brightness.units,
        entry.live.brightness.units < 0 ==> plan.uniforms.brightness.units == 0,
        entry.live.brightness.units > 4_294_967_296 ==> plan.uniforms.brightness.units
            == 4_294_967_296,
        entry.cover is Some ==> plan.uniforms.cover == entry.cover->0,
        entry.cover is None ==> plan.uniforms.cover.origin.x.units == 0
            && plan.uniforms.cover.origin.y.units == 0 && plan.uniforms.cover.size == view,
{
}

/// The size a frame is drawn with is the shader's resolution; the layer is resized exactly when its
/// size is another one, and a kept picture is replaced exactly when it has another size or is
/// missing, the one of the fade only while a fade composites it.
pub proof fn law_frame_reuses_what_has_its_size(
    plan: FramePlan,
    entry: LiveView,
    view: Size,
    drawable: Size,
    phase: u64,
    now: u64,
)
    requires
        frame_planned(plan, entry, view, drawable, phase, now),
    ensures
        plan.width == plan.uniforms.width,
        plan.height == plan.uniforms.height,
        !plan.resize_drawable <==> drawable.width.units == plan.width * 65536
            && drawable.height.units == plan.height * 65536,
        !plan.new_display <==> entry.display is Some && entry.display->0.width == plan.width
            && entry.display->0.height == plan.height,
        !plan.composite ==> !plan.new_style_frame,
        plan.composite ==> (!plan.new_style_frame <==> entry.style_frame is Some
            && entry.style_frame->0.width == plan.width && entry.style_frame->0.height
            == plan.height),
{
}

/// A fade runs for three quarters of a second from its start: a frame drawn within that time has a
/// fade, and composites it where there is a picture to fade from; a later frame has none. A frame
/// drawn before the fade started is drawn as at its start.
pub proof fn law_fade_runs_for_three_quarters_of_a_second(
    plan: FramePlan,
    entry: LiveView,
    view: Size,
    drawable: Size,
    phase: u64,
    now: u64,
)
    requires
        frame_planned(plan, entry, view, drawable, phase, now),
    ensures
        entry.fade_started is None ==> plan.fade is None,
        entry.fade_started is Some ==> {
            let started = entry.fade_started->0;
            &&& now >= started + 750_000_000 ==> plan.fade is None
            &&& now < started + 750_000_000 ==> plan.fade is Some
            &&& now <= started ==> plan.fade == Some(FadeAmount { amount: 0 })
            &&& started <= now < started + 750_000_000 ==> plan.fade->0.amount == 3 * 750_000_000 * (
            (now - started) * (now - started)) - 2 * ((now - started) * (now - started) * (now
                - started))
        },
        plan.composite <==> plan.fade is Some && entry.fading_from is Some,
{
    if entry.fade_started is Some {
        let t = elapsed(entry.fade_started->0, now);
        let d = LIVE_FADE as int;
        assert(t * t * (3 * d - 2 * t) == 3 * d * (t * t) - 2 * (t * t * t)) by (nonlinear_arith);
        assert(0int * 0int * (3 * d - 2 * 0int) == 0) by (nonlinear_arith);
    }
}

/// The end of a fade lets go of what was faded from, of the picture kept for the fade and of its
/// start, and of nothing else.
pub proof fn law_fade_ends_without_a_trace(entry: LiveView)
    ensures
        ({
            let after = entry.without_fade();
            &&& after.fading_from is None
            &&& after.style_frame is None
            &&& after.fade_started is None
            &&& after.display == entry.display
            &&& after.live == entry.live
            &&& after.cover == entry.cover
            &&& after.view == entry.view
            &&& after.wants_motion == entry.wants_motion
        }),
{
}

/// A view of at most 2560 by 1600 pixels is drawn with an eighth of its pixels on either side, to
/// the nearest, but never with fewer than 16.
pub proof fn law_view_is_drawn_at_an_eighth(width: int, height: int)
    requires
        65536 <= width <= 2560 * 65536,
        65536 <= height <= 1600 * 65536,
    ensures
        ({
            let drawn = drawn_side(width, live_scale(width, height));
            &&& drawn >= 16
            &&& 2 * width < (2 * drawn + 1) * 8 * 65536
            &&& drawn > 16 ==> (2 * drawn - 1) * 8 * 65536 <= 2 * width
        }),
        ({
            let drawn = drawn_side(height, live_scale(width, height));
            &&& drawn >= 16
            &&& 2 * height < (2 * drawn + 1) * 8 * 65536
            &&& drawn > 16 ==> (2 * drawn - 1) * 8 * 65536 <= 2 * height
        }),
{
    assert(live_scale(width, height) == (1int, 524288int));
    assert(width * 1 == width && height * 1 == height) by (nonlinear_arith);
}

/// A view wider than 2560 pixels, and no higher for its width than 320 by 200, is drawn with 320
/// pixels on its width, and with as many on its height as keep its shape, to the nearest, but never
/// with fewer than 16.
pub proof fn law_wide_view_is_drawn_320_wide(width: int, height: int)
    requires
        width > 2560 * 65536,
        height >= 65536,
        200 * width >= 320 * height,
    ensures
        drawn_side(width, live_scale(width, height)) == 320,
        ({
            let drawn = drawn_side(height, live_scale(width, height));
            &&& 16 <= drawn <= 200
            &&& 2 * (320 * height) < (2 * drawn + 1) * width
            &&& drawn > 16 ==> (2 * drawn - 1) * width <= 2 * (320 * height)
        }),
{
    assert(live_scale(width, height) == (320int, width));
    lemma_live_scale(width, height);
    lemma_drawn_side(height, (320int, width), 200);
    crate::fraction::law_rounded_is_nearest(width * 320, width);
    let side = rounded(width * 320, width);
    assert(side == 320) by (nonlinear_arith)
        requires
            width > 0,
            2 * (width * side) - width <= 2 * (width * 320),
            2 * (width * 320) < 2 * (width * side) + width,
    ;
    crate::fraction::law_rounded_is_nearest(height * 320, width);
    let side = rounded(height * 320, width);
    let drawn = drawn_side(height, (320int, width));
    assert((2 * side + 1) * width == 2 * (width * side) + width) by (nonlinear_arith);
    assert((2 * side - 1) * width == 2 * (width * side) - width) by (nonlinear_arith);
    assert((2 * side + 1) * width <= (2 * drawn + 1) * width) by (nonlinear_arith)
        requires
            side <= drawn,
            width > 0,
    ;
}

/// A view higher than 1600 pixels, and narrower for its height than 320 by 200, is drawn with 200
/// pixels on its height, and with as many on its width as keep its shape, to the nearest, but never
/// with fewer than 16.
pub proof fn law_high_view_is_drawn_200_high(width: int, height: int)
    requires
        width >= 65536,
        height > 1600 * 65536,
        200 * width < 320 * height,
    ensures
        drawn_side(height, live_scale(width, height)) == 200,
        ({
            let drawn = drawn_side(width, live_scale(width, height));
            &&& 16 <= drawn <= 320
            &&& 2 * (200 * width) < (2 * drawn + 1) * height
            &&& drawn > 16 ==> (2 * drawn - 1) * height <= 2 * (200 * width)
        }),
{
    assert(live_scale(width, height) == (200int, height));
    lemma_live_scale(width, height);
    lemma_drawn_side(width, (200int, height), 320);
    crate::fraction::law_rounded_is_nearest(height * 200, height);
    let side = rounded(height * 200, height);
    assert(side == 200) by (nonlinear_arith)
        requires
            height > 0,
            2 * (height * side) - height <= 2 * (height * 200),
            2 * (height * 200) < 2 * (height * side) + height,
    ;
    crate::fraction::law_rounded_is_nearest(width * 200, height);
    let side = rounded(width * 200, height);
    let drawn = drawn_side(width, (200int, height));
    assert((2 * side + 1) * height == 2 * (height * side) + height) by (nonlinear_arith);
    assert((2 * side - 1) * height == 2 * (height * side) - height) by (nonlinear_arith);
    assert((2 * side + 1) * height <= (2 * drawn + 1) * height) by (nonlinear_arith)
        requires
            side <= drawn,
            height > 0,
    ;
}

/// A frame is drawn with the width and the height its view's own width and height call for.
pub proof fn law_frame_has_the_size_of_its_view(
    plan: FramePlan,
    entry: LiveView,
    view: Size,
    drawable: Size,
    phase: u64,
    now: u64,
)
    requires
        view.width.units >= 65536,
        view.height.units >= 65536,
        frame_planned(plan, entry, view, drawable, phase, now),
    ensures
        ({
            let scale = live_scale(view.width.units as int, view.height.units as int);
            &&& plan.width == drawn_side(view.width.units as int, scale)
            &&& plan.height == drawn_side(view.height.units as int, scale)
            &&& 16 <= plan.width <= 320
            &&& 16 <= plan.height <= 200
        }),
{
    let (width, height) = (view.width.units as int, view.height.units as int);
    lemma_live_scale(width, height);
    lemma_drawn_side(width, live_scale(width, height), 320);
    lemma_drawn_side(height, live_scale(width, height), 200);
}

/// A tick moves the clock by the time since the last one, at most a tenth of a second, times the
/// speed, round a loop of two minutes at the normal speed of a million; a longer time, a time before
/// the last tick, or a first tick leaves it where it is. Speeds are kept between a twentieth and four
/// times the normal one.
pub proof fn law_tick_moves_by_time_times_speed(
    clock: LiveClock,
    last: u64,
    speed: i64,
    now: u64,
)
    requires
        clock.phase < 120 * 1_000_000_000 * 1_000_000,
        clock.last_tick == Some(last),
    ensures
        ({
            let after = clock.ticked(Some(speed), now);
            &&& after.last_tick == Some(now)
            &&& after.running == clock.running
            &&& last <= now <= last + 100_000_000 && 50_000 <= speed <= 4_000_000 ==> after.phase
                == (clock.phase + (now - last) * speed) % 120_000_000_000_000_000
            &&& now < last || now > last + 100_000_000 ==> after.phase == clock.phase
        }),
        speed < 50_000 ==> clock.ticked(Some(speed), now) == clock.ticked(Some(50_000), now),
        speed > 4_000_000 ==> clock.ticked(Some(speed), now) == clock.ticked(Some(4_000_000), now),
{
    let rate = clamped_speed(speed);
    assert(0 * rate == 0) by (nonlinear_arith);
    law_clock_accumulates_time_times_speed(clock, speed, now);
}

/// A tick without motion and a first tick leave the clock where it is in its loop; the one forgets
/// when the last tick was, the other remembers it.
pub proof fn law_first_tick_moves_nothing(clock: LiveClock, speed: i64, now: u64)
    requires
        clock.phase < 120 * 1_000_000_000 * 1_000_000,
    ensures
        clock.ticked(None, now).phase == clock.phase,
        clock.ticked(None, now).last_tick is None,
        clock.ticked(None, now).running == clock.running,
        clock.last_tick is None ==> clock.ticked(Some(speed), now).phase == clock.phase
            && clock.ticked(Some(speed), now).last_tick == Some(now),
{
    let rate = clamped_speed(speed);
    assert(0 * rate == 0) by (nonlinear_arith);
}

/// The timer runs exactly while it is needed: it is started or stopped when that changes, which
/// also forgets the last tick, and left alone otherwise. The phase is never touched.
pub proof fn law_timer_runs_while_needed(clock: LiveClock, needed: bool)
    ensures
        clock.with_timer(needed).running == needed,
        clock.with_timer(needed).phase == clock.phase,
        needed != clock.running ==> clock.with_timer(needed).last_tick is None,
        needed == clock.running ==> clock.with_timer(needed).last_tick == clock.last_tick,
        clock.timer_change(needed) == TimerChange::Start <==> needed && !clock.running,
        clock.timer_change(needed) == TimerChange::Stop <==> !needed && clock.running,
{
}

/// The timer is needed exactly while some view moves or has a fade that is not over.
pub proof fn law_timer_serves_motion_and_fades(views: Seq<LiveView>)
    ensures
        any_active(views) <==> exists|i: int|
            0 <= i < views.len() && ((#[trigger] views[i]).wants_motion || views[i].fade_started
                is Some),
{
    if any_active(views) {
        let i = choose|i: int| 0 <= i < views.len() && (#[trigger] views[i]).is_active();
        assert(views[i].wants_motion || views[i].fade_started is Some);
    }
    if exists|i: int|
        0 <= i < views.len() && ((#[trigger] views[i]).wants_motion || views[i].fade_started
            is Some) {
        let i = choose|i: int|
            0 <= i < views.len() && ((#[trigger] views[i]).wants_motion || views[i].fade_started
                is Some);
        assert(views[i].is_active());
    }
}

/// A tick draws a view exactly when it moves or fades, after the views before it and before those
/// after it, and only once.
pub proof fn law_tick_draws_what_moves_or_fades(before: Seq<LiveView>, view: LiveView)
    ensures
        active_handles(Seq::empty()) == Seq::<u64>::empty(),
        view.wants_motion || view.fade_started is Some ==> active_handles(before.push(view))
            == active_handles(before).push(view.view),
        !view.wants_motion && view.fade_started is None ==> active_handles(before.push(view))
            == active_handles(before),
{
    assert(before.push(view).drop_last() =~= before);
}

/// The clock runs at the speed of the first view that moves, whatever the views that hold still ask
/// for, and has no speed where none moves.
pub proof fn law_first_moving_view_sets_the_speed(views: Seq<LiveView>, i: int)
    requires
        0 <= i <= views.len(),
        forall|j: int| 0 <= j < i ==> !(#[trigger] views[j]).wants_motion,
        i < views.len() ==> views[i].wants_motion,
    ensures
        i < views.len() ==> moving_speed_from(views, 0) == Some(views[i].live.speed),
        i == views.len() ==> moving_speed_from(views, 0) is None,
{
    lemma_moving_speed_skips(views, 0, i);
}

/// A handle stands for the first view that has it, and for none where no view has it.
pub proof fn law_handle_finds_its_first_view(views: Seq<LiveView>, view: u64, i: int)
    requires
        0 <= i <= views.len(),
        forall|j: int| 0 <= j < i ==> (#[trigger] views[j]).view != view,
        i < views.len() ==> views[i].view == view,
    ensures
        i < views.len() ==> view_index(views, view) == Some(i),
        i == views.len() ==> view_index(views, view) is None,
{
    lemma_view_index_skips(views, view, 0, i);
}

/// Taking a view away takes every view with its handle, and keeps the others in their order.
pub proof fn law_other_views_are_kept_in_order(before: Seq<LiveView>, last: LiveView, view: u64)
    ensures
        without_view(Seq::empty(), view) == Seq::<LiveView>::empty(),
        last.view == view ==> without_view(before.push(last), view) == without_view(before, view),
        last.view != view ==> without_view(before.push(last), view) == without_view(
            before,
            view,
        ).push(last),
{
    reveal(Seq::filter);
    assert(before.push(last).drop_last() =~= before);
}

/// A view uses the texture on screen, the one a fade draws the new picture into and the one it fades
/// from, and no other.
pub proof fn law_textures_in_use(entry: LiveView, handle: u64)
    ensures
        entry.display is Some ==> entry.uses(entry.display->0.handle),
        entry.style_frame is Some ==> entry.uses(entry.style_frame->0.handle),
        entry.fading_from is Some ==> entry.uses(entry.fading_from->0.handle),
        entry.uses(handle) ==> {
            ||| entry.display is Some && entry.display->0.handle == handle
            ||| entry.style_frame is Some && entry.style_frame->0.handle == handle
            ||| entry.fading_from is Some && entry.fading_from->0.handle == handle
        },
{
}

/// A new view draws the settings it was made with over the whole of itself; it does not move, has no
/// picture and no fade.
pub proof fn law_fresh_view_has_no_picture(entry: LiveView, view: u64, live: LiveBackground)
    requires
        entry.is_fresh(view, live),
    ensures
        entry.view == view,
        entry.live == live,
        entry.cover is None,
        !entry.wants_motion,
        entry.display is None,
        entry.style_frame is None,
        entry.fading_from is None,
        entry.fade_started is None,
{
}

} // verus!
