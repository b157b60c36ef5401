//! The wallpaper backdrop of a blurred window: the blurred desktop picture of the window's screen
//! (or a picture the app chose) in place of the live behind-window blur, either covering the window
//! and moving with it, or held still against the screen while the window moves.

use crate::color::{clamp_level, clamped_level, Level, Rgb, LEVEL_ONE};
use crate::fraction::{greatest, least, less, rounded};
use crate::geometry::{Bounds, Pixels, Point, Rect, Size, MAX_UNITS, UNITS_PER_PIXEL};
use crate::text::{
    decimal, is_digit, law_decimal_injective, lemma_decimal_is_digits, lemma_split_at_first,
    lemma_split_at_last, push_decimal, push_signed_decimal, same_text, signed_decimal, starts_with,
};
use vstd::prelude::*;

verus! {

/// A handful covers every display and Space; the oldest is dropped past that.
pub const CACHE_LIMIT: usize = 6;

/// A picture blurred before; `image` stands for the native image.
pub struct CachedPicture {
    pub key: String,
    pub image: u64,
}

/// Pictures blurred so far, by wallpaper file, placement options and screen size, oldest first.
pub struct WallpaperCache {
    pictures: Vec<CachedPicture>,
}

impl View for WallpaperCache {
    type V = Seq<CachedPicture>;

    closed spec fn view(&self) -> Seq<CachedPicture> {
        self.pictures@
    }
}

/// The picture filed under `key`, from index `from` on.
pub open spec fn picture_from(
    pictures: Seq<CachedPicture>,
    key: Seq<char>,
    from: int,
) -> Option<u64>
    decreases pictures.len() - from,
{
    if from < 0 || from >= pictures.len() {
        None
    } else if pictures[from].key@ == key {
        Some(pictures[from].image)
    } else {
        picture_from(pictures, key, from + 1)
    }
}

pub open spec fn picture_for(pictures: Seq<CachedPicture>, key: Seq<char>) -> Option<u64> {
    picture_from(pictures, key, 0)
}

proof fn lemma_picture_skips(pictures: Seq<CachedPicture>, key: Seq<char>, from: int, to: int)
    requires
        0 <= from <= to <= pictures.len(),
        forall|i: int| from <= i < to ==> (#[trigger] pictures[i]).key@ != key,
    ensures
        picture_from(pictures, key, from) == picture_from(pictures, key, to),
    decreases to - from,
{
    if from < to {
        lemma_picture_skips(pictures, key, from + 1, to);
    }
}

/// The pictures after storing one more: the oldest of a full cache makes room.
pub open spec fn after_store(
    pictures: Seq<CachedPicture>,
    stored: CachedPicture,
) -> Seq<CachedPicture> {
    if pictures.len() == CACHE_LIMIT {
        pictures.skip(1).push(stored)
    } else {
        pictures.push(stored)
    }
}

/// The pictures after storing several, in order.
pub open spec fn after_stores(
    pictures: Seq<CachedPicture>,
    stored: Seq<CachedPicture>,
) -> Seq<CachedPicture>
    decreases stored.len(),
{
    if stored.len() == 0 {
        pictures
    } else {
        after_store(after_stores(pictures, stored.drop_last()), stored.last())
    }
}

impl WallpaperCache {
    pub open spec fn wf(self) -> bool {
        self@.len() <= CACHE_LIMIT
    }

    pub fn new() -> (cache: WallpaperCache)
        ensures
            cache.wf(),
            cache@ == Seq::<CachedPicture>::empty(),
    {
        WallpaperCache { pictures: Vec::new() }
    }

    /// The picture filed under `key`.
    pub fn cached(&self, key: &str) -> (image: Option<u64>)
        ensures
            image == picture_for(self@, key@),
    {
        let mut i: usize = 0;
        while i < self.pictures.len()
            invariant
                i <= self.pictures.len(),
                forall|j: int| 0 <= j < i ==> (#[trigger] self.pictures@[j]).key@ != key@,
            decreases self.pictures.len() - i,
        {
            if same_text(self.pictures[i].key.as_str(), key) {
                proof {
                    lemma_picture_skips(self.pictures@, key@, 0, i as int);
                }
                return Some(self.pictures[i].image);
            }
            i = i + 1;
        }
        proof {
            lemma_picture_skips(self.pictures@, key@, 0, i as int);
        }
        None
    }

    /// Files `image` under `key`, and returns the oldest picture where it had to make room.
    pub fn store(&mut self, key: String, image: u64) -> (dropped: Option<u64>)
        requires
            old(self).wf(),
        ensures
            final(self).wf(),
            dropped == if old(self)@.len() == CACHE_LIMIT {
                Some(old(self)@[0].image)
            } else {
                None
            },
            final(self)@ == after_store(
                old(self)@,
                CachedPicture { key, image },
            ),
    {
        let dropped: Option<u64> = if self.pictures.len() >= CACHE_LIMIT {
            let oldest = self.pictures.remove(0);
            assert(self.pictures@ =~= old(self)@.skip(1));
            Some(oldest.image)
        } else {
            None
        };
        self.pictures.push(CachedPicture { key, image });
        dropped
    }
}

/// A picture that was not there is found once it is stored, and every picture but the oldest of a
/// full cache is still found as before.
pub proof fn law_stored_picture_is_found(
    before: Seq<CachedPicture>,
    after: Seq<CachedPicture>,
    stored: CachedPicture,
    other: Seq<char>,
)
    requires
        before.len() <= CACHE_LIMIT,
        picture_for(before, stored.key@) is None,
        after == after_store(before, stored),
        other != stored.key@,
        before.len() == CACHE_LIMIT ==> before[0].key@ != other,
    ensures
        picture_for(after, stored.key@) == Some(stored.image),
        picture_for(after, other) == picture_for(before, other),
{
    let kept = if before.len() == CACHE_LIMIT {
        before.skip(1)
    } else {
        before
    };
    let shift: int = if before.len() == CACHE_LIMIT {
        1
    } else {
        0
    };
    lemma_picture(before, stored.key@, 0);
    assert forall|i: int| 0 <= i < kept.len() implies (#[trigger] after[i]).key@ != stored.key@ by {
        assert(after[i] == before[i + shift]);
    }
    lemma_picture_skips(after, stored.key@, 0, kept.len() as int);
    lemma_picture_shifted(before, after, other, shift, shift);
    lemma_picture_skips(before, other, 0, shift);
}

/// Where a picture just stored is after further ones were: as many places from the end as there were
/// further ones, with no other picture under its key before it.
proof fn lemma_stored_picture_stays(
    before: Seq<CachedPicture>,
    stored: CachedPicture,
    further: Seq<CachedPicture>,
)
    requires
        before.len() <= CACHE_LIMIT,
        picture_for(before, stored.key@) is None,
        further.len() < CACHE_LIMIT,
    ensures
        ({
            let after = after_stores(after_store(before, stored), further);
            let place = after.len() - 1 - further.len();
            &&& after.len() <= CACHE_LIMIT
            &&& 0 <= place
            &&& after[place] == stored
            &&& forall|i: int| 0 <= i < place ==> (#[trigger] after[i]).key@ != stored.key@
        }),
    decreases further.len(),
{
    if further.len() == 0 {
        lemma_picture(before, stored.key@, 0);
        let after = after_store(before, stored);
        let shift: int = if before.len() == CACHE_LIMIT {
            1
        } else {
            0
        };
        assert forall|i: int| 0 <= i < after.len() - 1 implies (#[trigger] after[i]).key@
            != stored.key@ by {
            assert(after[i] == before[i + shift]);
        }
    } else {
        let last = after_stores(after_store(before, stored), further.drop_last());
        lemma_stored_picture_stays(before, stored, further.drop_last());
        let after = after_store(last, further.last());
        let shift: int = if last.len() == CACHE_LIMIT {
            1
        } else {
            0
        };
        assert(forall|i: int| 0 <= i < after.len() - 1 ==> #[trigger] after[i] == last[i + shift]);
    }
}

/// A picture just stored is found until as many further ones were stored as the cache holds: five
/// further ones do not drop it.
pub proof fn law_stored_picture_outlives_five_more(
    before: Seq<CachedPicture>,
    stored: CachedPicture,
    further: Seq<CachedPicture>,
)
    requires
        before.len() <= CACHE_LIMIT,
        picture_for(before, stored.key@) is None,
        further.len() < CACHE_LIMIT,
    ensures
        picture_for(after_stores(after_store(before, stored), further), stored.key@) == Some(
            stored.image,
        ),
{
    lemma_stored_picture_stays(before, stored, further);
    let after = after_stores(after_store(before, stored), further);
    lemma_picture_skips(after, stored.key@, 0, after.len() - 1 - further.len());
}

/// Whether no two pictures are filed under one key.
pub open spec fn keys_distinct(pictures: Seq<CachedPicture>) -> bool {
    forall|i: int, j: int|
        0 <= i < j < pictures.len() ==> (#[trigger] pictures[i]).key@ != (
        #[trigger] pictures[j]).key@
}

/// Storing only pictures that were not found keeps every picture filed once.
pub proof fn law_pictures_are_filed_once(
    before: Seq<CachedPicture>,
    after: Seq<CachedPicture>,
    stored: CachedPicture,
)
    requires
        keys_distinct(before),
        picture_for(before, stored.key@) is None,
        after == after_store(before, stored),
    ensures
        keys_distinct(after),
{
    lemma_picture(before, stored.key@, 0);
    let shift: int = if before.len() == CACHE_LIMIT {
        1
    } else {
        0
    };
    assert(forall|i: int| 0 <= i < after.len() - 1 ==> #[trigger] after[i] == before[i + shift]);
}

proof fn lemma_picture(pictures: Seq<CachedPicture>, key: Seq<char>, from: int)
    requires
        0 <= from <= pictures.len(),
    ensures
        picture_from(pictures, key, from) is None ==> forall|i: int|
            from <= i < pictures.len() ==> (#[trigger] pictures[i]).key@ != key,
    decreases pictures.len() - from,
{
    if from < pictures.len() && pictures[from].key@ != key {
        lemma_picture(pictures, key, from + 1);
    }
}

/// Looking in a cache that lost `shift` pictures at its start and gained one under another key.
proof fn lemma_picture_shifted(
    before: Seq<CachedPicture>,
    after: Seq<CachedPicture>,
    key: Seq<char>,
    shift: int,
    from: int,
)
    requires
        0 <= shift <= from <= before.len(),
        after.len() == before.len() - shift + 1,
        forall|i: int| shift <= i < before.len() ==> after[i - shift] == #[trigger] before[i],
        after.last().key@ != key,
    ensures
        picture_from(after, key, from - shift) == picture_from(before, key, from),
    decreases before.len() - from,
{
    if from < before.len() {
        assert(after[from - shift] == before[from]);
        if before[from].key@ != key {
            lemma_picture_shifted(before, after, key, shift, from + 1);
        }
    } else {
        assert(after[from - shift].key@ != key);
        assert(picture_from(after, key, from - shift + 1) is None);
    }
}

/// How the desktop places its picture, from System Settings' Fill, Fit, Stretch and Center.
#[derive(Clone, Copy, Debug, PartialEq, Eq)]
pub struct Placement {
    /// 0 proportionally down, 1 axes independently, 2 none, 3 up or down.
    pub scaling: i64,
    pub allow_clipping: bool,
    /// The colour around the picture, each part out of 255.
    pub fill: Option<(u64, u64, u64)>,
}

/// What the desktop's options say about the placement, where they say it.
#[derive(Clone, Copy, Debug, PartialEq, Eq, Structural)]
pub struct DesktopOptions {
    pub scaling: Option<i64>,
    pub allow_clipping: Option<bool>,
    pub fill_color: Option<Rgb>,
}

/// A colour's part out of 255.
pub open spec fn quantized(level: Level) -> int {
    rounded(clamped_level(level).units * 255, LEVEL_ONE as int)
}

fn quantize(level: Level) -> (part: u64)
    ensures
        part == quantized(level),
        part <= 255,
{
    let level = clamp_level(level);
    ((2 * (level.units * 255) + LEVEL_ONE) / (2 * LEVEL_ONE)) as u64
}

/// How many times smaller than the screen the picture is blurred. Under a 60pt blur no detail finer
/// than a few points survives, so the small image is indistinguishable once scaled up.
pub const CANVAS_DIVISOR: i64 = 4;

/// The blur's radius on the small canvas, in pixels: the live backdrop's 60, scaled down.
pub const CANVAS_BLUR_RADIUS: i64 = 15;

/// A scale, as a fraction.
#[derive(Clone, Copy, Debug, PartialEq, Eq, Structural)]
pub struct Fraction {
    pub num: i64,
    pub den: i64,
}

impl View for Fraction {
    type V = (int, int);

    open spec fn view(&self) -> (int, int) {
        (self.num as int, self.den as int)
    }
}

fn is_less(a: Fraction, b: Fraction) -> (smaller: bool)
    ensures
        smaller == less(a@, b@),
{
    let limit: i128 = 0x8000_0000_0000_0000;
    let (p, q): (i128, i128) = (a.num as i128, b.den as i128);
    let (r, s): (i128, i128) = (b.num as i128, a.den as i128);
    assert(-(limit * limit) <= p * q <= limit * limit) by (nonlinear_arith)
        requires
            -limit <= p <= limit,
            -limit <= q <= limit,
    ;
    assert(-(limit * limit) <= r * s <= limit * limit) by (nonlinear_arith)
        requires
            -limit <= r <= limit,
            -limit <= s <= limit,
    ;
    assert(limit * limit == 0x4000_0000_0000_0000_0000_0000_0000_0000) by (nonlinear_arith)
        requires
            limit == 0x8000_0000_0000_0000,
    ;
    p * q < r * s
}

fn smaller(a: Fraction, b: Fraction) -> (c: Fraction)
    ensures
        c@ == least(a@, b@),
{
    if is_less(b, a) {
        b
    } else {
        a
    }
}

fn larger(a: Fraction, b: Fraction) -> (c: Fraction)
    ensures
        c@ == greatest(a@, b@),
{
    if is_less(a, b) {
        b
    } else {
        a
    }
}

/// The horizontal and vertical scale of a picture of this size, in units, on a canvas.
pub open spec fn placement_scale(
    placement: Placement,
    image: (int, int),
    canvas: (int, int),
) -> ((int, int), (int, int)) {
    let fit_x = (canvas.0, image.0);
    let fit_y = (canvas.1, image.1);
    let natural = (1int, CANVAS_DIVISOR as int);
    if placement.scaling == 0 {
        let scale = least(least(fit_x, fit_y), natural);
        (scale, scale)
    } else if placement.scaling == 1 {
        (fit_x, fit_y)
    } else if placement.scaling == 2 {
        (natural, natural)
    } else if placement.allow_clipping {
        (greatest(fit_x, fit_y), greatest(fit_x, fit_y))
    } else {
        (least(fit_x, fit_y), least(fit_x, fit_y))
    }
}

/// Whether `placement` is what the desktop's options ask for; what they leave out is as for Fill.
pub open spec fn placement_from(placement: Placement, options: Option<DesktopOptions>) -> bool {
    match options {
        None => placement == (Placement { scaling: 3, allow_clipping: true, fill: None }),
        Some(options) => {
            &&& placement.scaling == match options.scaling {
                Some(scaling) => scaling,
                None => 3,
            }
            &&& placement.allow_clipping == match options.allow_clipping {
                Some(clipping) => clipping,
                None => true,
            }
            &&& match options.fill_color {
                Some(color) => {
                    &&& placement.fill is Some
                    &&& (placement.fill->0).0 == quantized(color.red)
                    &&& (placement.fill->0).1 == quantized(color.green)
                    &&& (placement.fill->0).2 == quantized(color.blue)
                },
                None => placement.fill is None,
            }
        },
    }
}

impl Placement {
    /// Fills the screen, cropping what does not fit: System Settings' Fill.
    pub fn fill() -> (placement: Placement)
        ensures
            placement == (Placement { scaling: 3, allow_clipping: true, fill: None }),
    {
        Placement { scaling: 3, allow_clipping: true, fill: None }
    }

    /// What the desktop's options ask for; what they leave out is as for Fill.
    pub fn from_options(options: Option<DesktopOptions>) -> (placement: Placement)
        ensures
            placement_from(placement, options),
    {
        let mut placement = Placement::fill();
        match options {
            Some(options) => {
                match options.scaling {
                    Some(scaling) => {
                        placement.scaling = scaling;
                    },
                    None => {},
                }
                match options.allow_clipping {
                    Some(clipping) => {
                        placement.allow_clipping = clipping;
                    },
                    None => {},
                }
                match options.fill_color {
                    Some(color) => {
                        placement.fill = Some(
                            (quantize(color.red), quantize(color.green), quantize(color.blue)),
                        );
                    },
                    None => {},
                }
            },
            None => {},
        }
        placement
    }

    /// Horizontal and vertical scale of an `image` sized picture on a `canvas`.
    pub fn scale(&self, image: Size, canvas: Size) -> (scale: (Fraction, Fraction))
        requires
            image.width@ > 0,
            image.height@ > 0,
        ensures
            (scale.0@, scale.1@) == placement_scale(
                *self,
                (image.width@, image.height@),
                (canvas.width@, canvas.height@),
            ),
    {
        let fit_x = Fraction { num: canvas.width.units, den: image.width.units };
        let fit_y = Fraction { num: canvas.height.units, den: image.height.units };
        let natural = Fraction { num: 1, den: CANVAS_DIVISOR };
        if self.scaling == 0 {
            let scale = smaller(smaller(fit_x, fit_y), natural);
            (scale, scale)
        } else if self.scaling == 1 {
            (fit_x, fit_y)
        } else if self.scaling == 2 {
            (natural, natural)
        } else {
            let scale = if self.allow_clipping {
                larger(fit_x, fit_y)
            } else {
                smaller(fit_x, fit_y)
            };
            (scale, scale)
        }
    }
}

/// Fill covers the canvas and crops only in one direction; Fit stays inside it and leaves room only
/// in one direction; Stretch takes all of it; the natural size is a quarter, and proportionally
/// down is the largest of Fit and the natural size that does not exceed either.
pub proof fn law_placements(placement: Placement, image: (int, int), canvas: (int, int))
    requires
        image.0 > 0,
        image.1 > 0,
    ensures
        ({
            let (x, y) = placement_scale(placement, image, canvas);
            &&& x.1 > 0 && y.1 > 0
            &&& placement.scaling != 1 ==> x == y
            &&& placement.scaling == 1 ==> image.0 * x.0 == canvas.0 * x.1 && image.1 * y.0
                == canvas.1 * y.1
            &&& placement.scaling == 2 ==> x == (1int, 4int)
            &&& placement.scaling == 0 ==> image.0 * x.0 <= canvas.0 * x.1 && image.1 * x.0
                <= canvas.1 * x.1 && 4 * x.0 <= x.1
            &&& !(0 <= placement.scaling <= 2) && placement.allow_clipping ==> image.0 * x.0
                >= canvas.0 * x.1 && image.1 * x.0 >= canvas.1 * x.1 && (image.0 * x.0 == canvas.0
                * x.1 || image.1 * x.0 == canvas.1 * x.1)
            &&& !(0 <= placement.scaling <= 2) && !placement.allow_clipping ==> image.0 * x.0
                <= canvas.0 * x.1 && image.1 * x.0 <= canvas.1 * x.1 && (image.0 * x.0 == canvas.0
                * x.1 || image.1 * x.0 == canvas.1 * x.1)
        }),
{
    let fit_x = (canvas.0, image.0);
    let fit_y = (canvas.1, image.1);
    let natural = (1int, 4int);
    assert(image.0 * canvas.0 == canvas.0 * image.0) by (nonlinear_arith);
    assert(image.1 * canvas.1 == canvas.1 * image.1) by (nonlinear_arith);
    assert(image.0 * canvas.1 == canvas.1 * image.0) by (nonlinear_arith);
    assert(image.1 * canvas.0 == canvas.0 * image.1) by (nonlinear_arith);
    if placement.scaling == 0 {
        let fit = least(fit_x, fit_y);
        assert(image.0 * fit.0 <= canvas.0 * fit.1);
        assert(image.1 * fit.0 <= canvas.1 * fit.1);
        if less(natural, fit) {
            assert(fit.1 < 4 * fit.0) by (nonlinear_arith)
                requires
                    less((1int, 4int), fit),
            ;
            assert(image.0 <= 4 * canvas.0) by (nonlinear_arith)
                requires
                    image.0 * fit.0 <= canvas.0 * fit.1,
                    fit.1 < 4 * fit.0,
                    fit.1 > 0,
                    image.0 > 0,
            ;
            assert(image.1 <= 4 * canvas.1) by (nonlinear_arith)
                requires
                    image.1 * fit.0 <= canvas.1 * fit.1,
                    fit.1 < 4 * fit.0,
                    fit.1 > 0,
                    image.1 > 0,
            ;
        } else {
            assert(4 * fit.0 <= fit.1) by (nonlinear_arith)
                requires
                    !less((1int, 4int), fit),
            ;
        }
    }
}

/// How far a picture is moved, as a fraction of units.
#[derive(Clone, Copy, Debug, PartialEq, Eq, Structural)]
pub struct Shift {
    pub num: i128,
    pub den: i128,
}

/// What blurring a picture for a screen takes: a small screen-shaped canvas, how the picture is
/// scaled and moved onto it, the colour around it and the blur's radius in pixels.
#[derive(Clone, Copy, Debug, PartialEq, Eq)]
pub struct BlurPlan {
    pub canvas: Size,
    pub scale_x: Fraction,
    pub scale_y: Fraction,
    pub shift_x: Shift,
    pub shift_y: Shift,
    pub background: (u64, u64, u64),
    pub radius: i64,
}

/// A side of the canvas for a screen whose side is `screen` units: a quarter of it in whole pixels,
/// at least one.
pub open spec fn canvas_side(screen: int) -> int {
    let pixels = rounded(screen, CANVAS_DIVISOR * UNITS_PER_PIXEL);
    if pixels < 1 {
        UNITS_PER_PIXEL as int
    } else {
        pixels * UNITS_PER_PIXEL
    }
}

fn canvas_length(screen: Pixels) -> (side: Pixels)
    requires
        screen.within(MAX_UNITS as int),
    ensures
        side@ == canvas_side(screen@),
        UNITS_PER_PIXEL <= side@ <= MAX_UNITS,
{
    let step: i64 = CANVAS_DIVISOR * UNITS_PER_PIXEL;
    if screen.units < 0 {
        assert((2 * screen@ + 262144) / 524288int < 1);
        assert(CANVAS_DIVISOR * UNITS_PER_PIXEL == 262144);
        return Pixels { units: UNITS_PER_PIXEL };
    }
    let pixels: i64 = (2 * screen.units + step) / (2 * step);
    if pixels < 1 {
        Pixels { units: UNITS_PER_PIXEL }
    } else {
        Pixels { units: pixels * UNITS_PER_PIXEL }
    }
}

/// The numerator, over twice the scale's denominator, of the shift that puts the middle of a
/// picture reaching `length` units from `start` on the middle of a canvas side.
pub open spec fn centering_shift(start: int, length: int, canvas: int, scale: (int, int)) -> int {
    canvas * scale.1 - length * scale.0 - 2 * start * scale.0
}

fn centered(start: Pixels, length: Pixels, canvas: Pixels, scale: Fraction) -> (shift: Shift)
    requires
        start.within(MAX_UNITS as int),
        length.within(MAX_UNITS as int),
        canvas.within(MAX_UNITS as int),
        -MAX_UNITS <= scale.num <= MAX_UNITS,
        -MAX_UNITS <= scale.den <= MAX_UNITS,
    ensures
        shift.num == centering_shift(start@, length@, canvas@, scale@),
        shift.den == 2 * scale.den,
{
    let limit: i128 = MAX_UNITS as i128;
    let (x, w, c): (i128, i128, i128) = (
        start.units as i128,
        length.units as i128,
        canvas.units as i128,
    );
    let (n, d): (i128, i128) = (scale.num as i128, scale.den as i128);
    proof {
        assert(-(limit * limit) <= c * d <= limit * limit) by (nonlinear_arith)
            requires
                -limit <= c <= limit,
                -limit <= d <= limit,
        ;
        assert(-(limit * limit) <= w * n <= limit * limit) by (nonlinear_arith)
            requires
                -limit <= w <= limit,
                -limit <= n <= limit,
        ;
        assert(-(2 * limit * limit) <= 2 * x * n <= 2 * limit * limit) by (nonlinear_arith)
            requires
                -limit <= x <= limit,
                -limit <= n <= limit,
        ;
        assert(limit * limit == 19807040628566084398385987584) by (nonlinear_arith)
            requires
                limit == 140737488355328,
        ;
        assert(2 * limit * limit == 2 * 19807040628566084398385987584) by (nonlinear_arith)
            requires
                limit == 140737488355328,
        ;
    }
    Shift { num: c * d - w * n - 2 * x * n, den: 2 * d }
}

/// Whether `plan` lays a picture of this extent out on a canvas for a screen of this size the way
/// `placement` asks for.
pub open spec fn blur_planned(
    plan: BlurPlan,
    extent: Bounds,
    placement: Placement,
    screen: Size,
) -> bool {
    let extent = extent@;
    let (width, height) = (canvas_side(screen.width@), canvas_side(screen.height@));
    let scale = placement_scale(placement, (extent.w, extent.h), (width, height));
    &&& plan.canvas.width@ == width && plan.canvas.height@ == height
    &&& plan.scale_x@ == scale.0 && plan.scale_y@ == scale.1
    &&& plan.shift_x.num == centering_shift(extent.x, extent.w, width, scale.0)
    &&& plan.shift_y.num == centering_shift(extent.y, extent.h, height, scale.1)
    &&& plan.shift_x.den == 2 * plan.scale_x.den && plan.shift_y.den == 2 * plan.scale_y.den
    &&& placement.fill is Some ==> plan.background == placement.fill->0
    &&& placement.fill is None ==> plan.background == (0u64, 0u64, 0u64)
    &&& plan.radius == CANVAS_BLUR_RADIUS
}

/// The desktop picture laid out on a small screen-shaped canvas the way the desktop places it, then
/// blurred like the live backdrop. `extent` is the picture's, `None` when it cannot be read or has
/// no end. `None` when there is nothing to blur: no extent, or one less than a pixel wide or high.
pub fn plan_blur(extent: Option<Bounds>, placement: &Placement, screen: Size) -> (plan: Option<
    BlurPlan,
>)
    requires
        extent is Some ==> extent->0.in_range(),
        screen.in_range(),
    ensures
        plan is Some <==> extent is Some && extent->0@.w >= UNITS_PER_PIXEL && extent->0@.h
            >= UNITS_PER_PIXEL,
        plan is Some ==> {
            let plan = plan->0;
            let extent = extent->0@;
            &&& plan.canvas.width@ == canvas_side(screen.width@)
            &&& plan.canvas.height@ == canvas_side(screen.height@)
            &&& (plan.scale_x@, plan.scale_y@) == placement_scale(
                *placement,
                (extent.w, extent.h),
                (plan.canvas.width@, plan.canvas.height@),
            )
            &&& plan.scale_x.den > 0
            &&& plan.scale_y.den > 0
            &&& plan.shift_x.num == centering_shift(
                extent.x,
                extent.w,
                plan.canvas.width@,
                plan.scale_x@,
            )
            &&& plan.shift_x.den == 2 * plan.scale_x.den
            &&& plan.shift_y.num == centering_shift(
                extent.y,
                extent.h,
                plan.canvas.height@,
                plan.scale_y@,
            )
            &&& plan.shift_y.den == 2 * plan.scale_y.den
            &&& plan.background == match placement.fill {
                Some(fill) => fill,
                None => (0, 0, 0),
            }
            &&& plan.radius == CANVAS_BLUR_RADIUS
        },
        plan is Some ==> blur_planned(plan->0, extent->0, *placement, screen),
{
    let extent = match extent {
        Some(extent) => extent,
        None => {
            return None;
        },
    };
    if extent.size.width.units < UNITS_PER_PIXEL || extent.size.height.units < UNITS_PER_PIXEL {
        return None;
    }
    let canvas = Size { width: canvas_length(screen.width), height: canvas_length(screen.height) };
    let (scale_x, scale_y) = placement.scale(extent.size, canvas);
    let background = match placement.fill {
        Some(fill) => fill,
        None => (0, 0, 0),
    };
    Some(
        BlurPlan {
            canvas,
            scale_x,
            scale_y,
            shift_x: centered(extent.origin.x, extent.size.width, canvas.width, scale_x),
            shift_y: centered(extent.origin.y, extent.size.height, canvas.height, scale_y),
            background,
            radius: CANVAS_BLUR_RADIUS,
        },
    )
}

/// The middle of the scaled and moved picture is the middle of the canvas: with a scale n / d and a
/// shift s / (2 * d), the picture's middle (2 * start + length) / 2 lands at
/// ((2 * start + length) * n + s) / (2 * d), which is canvas / 2.
pub proof fn law_picture_is_centered(start: int, length: int, canvas: int, scale: (int, int))
    ensures
        (2 * start + length) * scale.0 + centering_shift(start, length, canvas, scale) == canvas
            * scale.1,
{
    assert((2 * start + length) * scale.0 == 2 * start * scale.0 + length * scale.0)
        by (nonlinear_arith);
}

/// How the picture fills its layer.
#[derive(Clone, Copy, Debug, PartialEq, Eq, Structural)]
pub enum Gravity {
    /// Fills it, cropping what does not fit.
    ResizeAspectFill,
    /// Stretches to it.
    Resize,
}

/// Neither side of the layer follows the view's.
pub const FIXED: u32 = 0;

/// The layer's width and height follow the view's.
pub const WIDTH_AND_HEIGHT_SIZABLE: u32 = 18;

/// Where the picture's layer goes, in coordinates with the origin at the bottom left.
#[derive(Clone, Copy, Debug, PartialEq, Eq, Structural)]
pub struct PictureLayout {
    pub gravity: Gravity,
    pub autoresizing: u32,
    pub frame: Bounds,
}

/// A rectangle in a space of this height, with y counted from the other end.
pub open spec fn flipped(rect: Rect, height: int) -> Rect {
    Rect { y: height - rect.y - rect.h, ..rect }
}

/// Where the picture goes: held against the screen, over the cover, or over the whole layer.
pub open spec fn picture_frame(
    layer: Rect,
    screen_frame: Rect,
    content: Rect,
    follows_screen: bool,
    cover: Option<Bounds>,
) -> Rect {
    if follows_screen {
        screen_frame.at(screen_frame.x - content.x, screen_frame.y - content.y)
    } else {
        match cover {
            Some(cover) => flipped(cover@, layer.h),
            None => layer,
        }
    }
}

/// How the picture fills its layer: stretched over the screen, or cropped to the window.
pub open spec fn picture_gravity(follows_screen: bool) -> Gravity {
    if follows_screen {
        Gravity::Resize
    } else {
        Gravity::ResizeAspectFill
    }
}

/// Places the picture. Held against the screen, it moves the other way inside the window whenever
/// the window moves, so it looks still. Attached to the window, it fills the view (cropping what
/// does not fit) and resizes with it on its own, so a moving window needs no update at all; given
/// a `cover` rectangle (window coordinates, top-left origin) it fills that rectangle instead.
///
/// `layer` is the view's layer, `content` the window's content on the screen.
pub fn layout(
    layer: Bounds,
    screen_frame: Bounds,
    content: Bounds,
    follows_screen: bool,
    cover: Option<Bounds>,
) -> (placed: PictureLayout)
    requires
        layer.in_range(),
        screen_frame.in_range(),
        content.in_range(),
        cover is Some ==> cover->0.in_range(),
    ensures
        placed.gravity == picture_gravity(follows_screen),
        placed.autoresizing == if follows_screen || cover is Some {
            FIXED
        } else {
            WIDTH_AND_HEIGHT_SIZABLE
        },
        placed.frame@ == picture_frame(layer@, screen_frame@, content@, follows_screen, cover),
        placed.frame.within(4 * MAX_UNITS),
{
    if follows_screen {
        return PictureLayout {
            gravity: Gravity::Resize,
            autoresizing: FIXED,
            frame: Bounds {
                origin: Point {
                    x: Pixels { units: screen_frame.origin.x.units - content.origin.x.units },
                    y: Pixels { units: screen_frame.origin.y.units - content.origin.y.units },
                },
                size: screen_frame.size,
            },
        };
    }
    match cover {
        Some(cover) => PictureLayout {
            gravity: Gravity::ResizeAspectFill,
            autoresizing: FIXED,
            frame: Bounds {
                origin: Point {
                    x: cover.origin.x,
                    y: Pixels {
                        units: layer.size.height.units - cover.origin.y.units
                            - cover.size.height.units,
                    },
                },
                size: cover.size,
            },
        },
        None => PictureLayout {
            gravity: Gravity::ResizeAspectFill,
            autoresizing: WIDTH_AND_HEIGHT_SIZABLE,
            frame: layer,
        },
    }
}

/// A picture held against the screen looks still: wherever the window's content is, the picture
/// covers exactly the screen.
pub proof fn law_held_picture_looks_still(
    layer: Rect,
    screen_frame: Rect,
    content: Rect,
    cover: Option<Bounds>,
)
    ensures
        ({
            let placed = picture_frame(layer, screen_frame, content, true, cover);
            placed.at(content.x + placed.x, content.y + placed.y) == screen_frame
        }),
{
}

/// Counting y from the other end twice changes nothing.
pub proof fn law_flip_twice(rect: Rect, height: int)
    ensures
        flipped(flipped(rect, height), height) == rect,
{
}

/// Whether a layer with this corner radius cuts off what lies outside it.
pub fn masks_to_bounds(radius: Pixels) -> (masks: bool)
    ensures
        masks == (radius@ > 0),
{
    radius.units > 0
}

pub open spec fn is_picture_layer(name: Option<String>) -> bool {
    name is Some && name->0@ == "wallpaper"@
}

/// Which of the sublayers, given by their names, is the picture's: the first named `wallpaper`.
pub fn picture_layer(names: &[Option<String>]) -> (index: Option<usize>)
    ensures
        match index {
            Some(i) => i < names.len() && is_picture_layer(names@[i as int]) && forall|j: int|
                0 <= j < i ==> !is_picture_layer(#[trigger] names@[j]),
            None => forall|j: int| 0 <= j < names.len() ==> !is_picture_layer(#[trigger] names@[j]),
        },
{
    let mut i: usize = 0;
    while i < names.len()
        invariant
            i <= names.len(),
            forall|j: int| 0 <= j < i ==> !is_picture_layer(#[trigger] names@[j]),
        decreases names.len() - i,
    {
        match &names[i] {
            Some(name) => {
                if same_text(name.as_str(), "wallpaper") {
                    return Some(i);
                }
            },
            None => {},
        }
        i = i + 1;
    }
    None
}

/// Where a window's picture comes from.
pub enum Source {
    /// A picture the app chose, and when its file was changed, in milliseconds since 1970: a file
    /// replaced under the same name is a new picture.
    Image { path: String, modified: u128 },
    /// A still of the built-in wallpaper.
    BuiltIn { still: String },
    /// The desktop's own picture.
    Desktop { path: String, placement: Placement },
}

pub open spec fn bool_text(value: bool) -> Seq<char> {
    if value {
        "true"@
    } else {
        "false"@
    }
}

pub open spec fn fill_text(fill: Option<(u64, u64, u64)>) -> Seq<char> {
    match fill {
        Some((red, green, blue)) => "Some(("@ + decimal(red as nat) + ", "@ + decimal(green as nat)
            + ", "@ + decimal(blue as nat) + "))"@,
        None => "None"@,
    }
}

/// A placement as it is written in a cache key.
pub open spec fn placement_text(placement: Placement) -> Seq<char> {
    "Placement { scaling: "@ + signed_decimal(placement.scaling as int) + ", allow_clipping: "@
        + bool_text(placement.allow_clipping) + ", fill: "@ + fill_text(placement.fill) + " }"@
}

/// What a picture is filed under, for a screen whose size is written `size`.
pub open spec fn source_key(source: Source, size: Seq<char>) -> Seq<char> {
    match source {
        Source::Image { path, modified } => "image|"@ + path@ + "|"@ + decimal(modified as nat)
            + "|"@ + size,
        Source::BuiltIn { still } => "built-in|"@ + still@ + "|"@ + size,
        Source::Desktop { path, placement } => path@ + "|"@ + size + "|"@ + placement_text(
            placement,
        ),
    }
}

fn write_fill(fill: Option<(u64, u64, u64)>) -> (out: String)
    ensures
        out@ == fill_text(fill),
{
    match fill {
        Some((red, green, blue)) => {
            let mut out = "Some((".to_owned();
            push_decimal(&mut out, red as u128);
            out.append(", ");
            push_decimal(&mut out, green as u128);
            out.append(", ");
            push_decimal(&mut out, blue as u128);
            out.append("))");
            out
        },
        None => "None".to_owned(),
    }
}

fn write_placement(placement: &Placement) -> (out: String)
    ensures
        out@ == placement_text(*placement),
{
    let mut out = "Placement { scaling: ".to_owned();
    push_signed_decimal(&mut out, placement.scaling);
    out.append(", allow_clipping: ");
    if placement.allow_clipping {
        out.append("true");
    } else {
        out.append("false");
    }
    out.append(", fill: ");
    let fill = write_fill(placement.fill);
    out.append(fill.as_str());
    out.append(" }");
    out
}

impl Source {
    /// What the picture is filed under, for a screen whose size is written `size`.
    pub fn key(&self, size: &str) -> (key: String)
        ensures
            key@ == source_key(*self, size@),
    {
        match self {
            Source::Image { path, modified } => {
                let mut key = "image|".to_owned();
                key.append(path.as_str());
                key.append("|");
                push_decimal(&mut key, *modified);
                key.append("|");
                key.append(size);
                key
            },
            Source::BuiltIn { still } => {
                let mut key = "built-in|".to_owned();
                key.append(still.as_str());
                key.append("|");
                key.append(size);
                key
            },
            Source::Desktop { path, placement } => {
                let mut key = path.as_str().to_owned();
                key.append("|");
                key.append(size);
                key.append("|");
                let placement = write_placement(placement);
                key.append(placement.as_str());
                key
            },
        }
    }

    /// How the picture is placed on the screen: the desktop's way, or filling it.
    pub fn placement(&self) -> (placement: Placement)
        ensures
            placement == match *self {
                Source::Desktop { path, placement } => placement,
                _ => Placement { scaling: 3, allow_clipping: true, fill: None },
            },
    {
        match self {
            Source::Desktop { path, placement } => *placement,
            _ => Placement::fill(),
        }
    }
}

/// A file the desktop reports for every wallpaper it draws itself, rather than what is on screen.
pub open spec fn is_placeholder(path: Seq<char>, resolved: Seq<char>) -> bool {
    ||| path == "/System/Library/CoreServices/DefaultDesktop.heic"@
    ||| "/System/Library/Wallpapers/.default/"@.is_prefix_of(resolved)
}

/// Whether the desktop picture at `path`, which is `resolved` with symbolic links followed, is only
/// a placeholder for a built-in wallpaper.
pub fn shows_built_in(path: &str, resolved: Option<&str>) -> (built_in: bool)
    ensures
        built_in == is_placeholder(
            path@,
            match resolved {
                Some(resolved) => resolved@,
                None => Seq::empty(),
            },
        ),
{
    if same_text(path, "/System/Library/CoreServices/DefaultDesktop.heic") {
        return true;
    }
    match resolved {
        Some(resolved) => starts_with(resolved, "/System/Library/Wallpapers/.default/"),
        None => {
            proof {
                reveal_strlit("/System/Library/Wallpapers/.default/");
            }
            false
        },
    }
}

/// Whether `source` is what a desktop that reports the file at `path`, which is `resolved` with
/// symbolic links followed, shows: the file itself, or the still of the wallpaper it stands for.
pub open spec fn is_desktop_source(
    source: Option<Source>,
    path: Option<String>,
    resolved: Seq<char>,
    still: Option<String>,
    options: Option<DesktopOptions>,
) -> bool {
    if path is None || (is_placeholder(path->0@, resolved) && still is None) {
        source is None
    } else if is_placeholder(path->0@, resolved) {
        source == Some(Source::BuiltIn { still: still->0 })
    } else {
        &&& source is Some && source->0 is Desktop
        &&& source->0->Desktop_path == path->0
        &&& placement_from(source->0->placement, options)
    }
}

/// The desktop picture of a screen: its file, or a still of the built-in wallpaper the file stands
/// for. `None` when the file has no path, or stands for a wallpaper that has no still.
pub fn desktop_picture(
    path: Option<String>,
    resolved: Option<&str>,
    still: Option<String>,
    options: Option<DesktopOptions>,
) -> (source: Option<Source>)
    ensures
        match path {
            None => source is None,
            Some(path) => {
                let built_in = is_placeholder(
                    path@,
                    match resolved {
                        Some(resolved) => resolved@,
                        None => Seq::empty(),
                    },
                );
                if built_in {
                    match still {
                        Some(still) => source == Some(Source::BuiltIn { still }),
                        None => source is None,
                    }
                } else {
                    &&& source matches Some(Source::Desktop { path: p, placement })
                    &&& p == path
                    &&& placement_from(placement, options)
                }
            },
        },
        is_desktop_source(
            source,
            path,
            match resolved {
                Some(resolved) => resolved@,
                None => Seq::empty(),
            },
            still,
            options,
        ),
{
    match path {
        None => None,
        Some(path) => if shows_built_in(path.as_str(), resolved) {
            match still {
                Some(still) => Some(Source::BuiltIn { still }),
                None => None,
            }
        } else {
            Some(Source::Desktop { path, placement: Placement::from_options(options) })
        },
    }
}

/// What showing a picture takes.
pub enum Lookup {
    /// It was blurred before.
    Ready { image: u64 },
    /// It is to be blurred, and then stored under `key`.
    Render { key: String, placement: Placement },
}

/// Whether `found` is what showing `source` takes with these pictures blurred before.
pub open spec fn is_lookup(
    found: Lookup,
    pictures: Seq<CachedPicture>,
    source: Source,
    size: Seq<char>,
) -> bool {
    match found {
        Lookup::Ready { image } => picture_for(pictures, source_key(source, size)) == Some(image),
        Lookup::Render { key, placement } => {
            &&& picture_for(pictures, source_key(source, size)) is None
            &&& key@ == source_key(source, size)
            &&& source is Desktop ==> placement == source->placement
            &&& !(source is Desktop) ==> placement.scaling == 3 && placement.allow_clipping
                && placement.fill is None
        },
    }
}

/// The blurred picture behind a window whose screen's size is written `size`.
pub fn wallpaper_for_window(cache: &WallpaperCache, source: &Source, size: &str) -> (found: Lookup)
    ensures
        match picture_for(cache@, source_key(*source, size@)) {
            Some(image) => found == (Lookup::Ready { image }),
            None => {
                &&& found matches Lookup::Render { key, placement }
                &&& key@ == source_key(*source, size@)
                &&& placement == match *source {
                    Source::Desktop { path, placement } => placement,
                    _ => Placement { scaling: 3, allow_clipping: true, fill: None },
                }
            },
        },
        is_lookup(found, cache@, *source, size@),
{
    let key = source.key(size);
    match cache.cached(key.as_str()) {
        Some(image) => Lookup::Ready { image },
        None => Lookup::Render { key, placement: source.placement() },
    }
}

/// Whether `c` does not occur in `s`.
pub open spec fn lacks(s: Seq<char>, c: char) -> bool {
    forall|i: int| 0 <= i < s.len() ==> #[trigger] s[i] != c
}

proof fn lemma_lacks_add(a: Seq<char>, b: Seq<char>, c: char)
    requires
        lacks(a, c),
        lacks(b, c),
    ensures
        lacks(a + b, c),
{
    assert forall|i: int| 0 <= i < (a + b).len() implies #[trigger] (a + b)[i] != c by {
        if i < a.len() {
            assert((a + b)[i] == a[i]);
        } else {
            assert((a + b)[i] == b[i - a.len()]);
        }
    }
}

proof fn lemma_decimal_lacks(n: nat, c: char)
    requires
        !is_digit(c),
    ensures
        lacks(decimal(n), c),
{
    lemma_decimal_is_digits(n);
    assert forall|i: int| 0 <= i < decimal(n).len() implies #[trigger] decimal(n)[i] != c by {
        assert(is_digit(decimal(n)[i]));
    }
}

proof fn lemma_signed_lacks(n: int, c: char)
    requires
        !is_digit(c),
        c != '-',
    ensures
        lacks(signed_decimal(n), c),
{
    if n < 0 {
        lemma_decimal_lacks((-n) as nat, c);
        lemma_lacks_add(seq!['-'], decimal((-n) as nat), c);
    } else {
        lemma_decimal_lacks(n as nat, c);
    }
}

proof fn lemma_literals_lack_bar()
    ensures
        lacks("Placement { scaling: "@, '|'),
        lacks(", allow_clipping: "@, '|'),
        lacks("true"@, '|'),
        lacks("false"@, '|'),
        lacks(", fill: "@, '|'),
        lacks("Some(("@, '|'),
        lacks(", "@, '|'),
        lacks("))"@, '|'),
        lacks("None"@, '|'),
        lacks(" }"@, '|'),
{
    reveal_strlit("Placement { scaling: ");
    reveal_strlit(", allow_clipping: ");
    reveal_strlit("true");
    reveal_strlit("false");
    reveal_strlit(", fill: ");
    reveal_strlit("Some((");
    reveal_strlit(", ");
    reveal_strlit("))");
    reveal_strlit("None");
    reveal_strlit(" }");
}

proof fn lemma_placement_text_lacks_bar(placement: Placement)
    ensures
        lacks(placement_text(placement), '|'),
{
    lemma_literals_lack_bar();
    let scaling = signed_decimal(placement.scaling as int);
    lemma_signed_lacks(placement.scaling as int, '|');
    let fill = fill_text(placement.fill);
    match placement.fill {
        Some((red, green, blue)) => {
            let a = "Some(("@;
            let r = decimal(red as nat);
            let g = decimal(green as nat);
            let b = decimal(blue as nat);
            lemma_decimal_lacks(red as nat, '|');
            lemma_decimal_lacks(green as nat, '|');
            lemma_decimal_lacks(blue as nat, '|');
            lemma_lacks_add(a, r, '|');
            lemma_lacks_add(a + r, ", "@, '|');
            lemma_lacks_add(a + r + ", "@, g, '|');
            lemma_lacks_add(a + r + ", "@ + g, ", "@, '|');
            lemma_lacks_add(a + r + ", "@ + g + ", "@, b, '|');
            lemma_lacks_add(a + r + ", "@ + g + ", "@ + b, "))"@, '|');
        },
        None => {},
    }
    assert(lacks(fill, '|'));
    let p = "Placement { scaling: "@;
    let q = ", allow_clipping: "@;
    let t = bool_text(placement.allow_clipping);
    let f = ", fill: "@;
    lemma_lacks_add(p, scaling, '|');
    lemma_lacks_add(p + scaling, q, '|');
    lemma_lacks_add(p + scaling + q, t, '|');
    lemma_lacks_add(p + scaling + q + t, f, '|');
    lemma_lacks_add(p + scaling + q + t + f, fill, '|');
    lemma_lacks_add(p + scaling + q + t + f + fill, " }"@, '|');
}

proof fn lemma_cancel_prefix(p: Seq<char>, x: Seq<char>, y: Seq<char>)
    requires
        p + x == p + y,
    ensures
        x == y,
{
    assert(x =~= (p + x).skip(p.len() as int));
    assert(y =~= (p + y).skip(p.len() as int));
}

proof fn lemma_cancel_suffix(x: Seq<char>, y: Seq<char>, p: Seq<char>)
    requires
        x + p == y + p,
    ensures
        x == y,
{
    assert(x.len() + p.len() == (x + p).len());
    assert(y.len() + p.len() == (y + p).len());
    assert(x =~= (x + p).take(x.len() as int));
    assert(y =~= (y + p).take(x.len() as int));
}

proof fn lemma_signed_injective(a: int, b: int)
    requires
        signed_decimal(a) == signed_decimal(b),
    ensures
        a == b,
{
    if a < 0 && b < 0 {
        lemma_cancel_prefix(seq!['-'], decimal((-a) as nat), decimal((-b) as nat));
        law_decimal_injective((-a) as nat, (-b) as nat);
    } else if a >= 0 && b >= 0 {
        law_decimal_injective(a as nat, b as nat);
    } else {
        let positive = if a >= 0 {
            a
        } else {
            b
        };
        lemma_decimal_is_digits(positive as nat);
        assert(is_digit(decimal(positive as nat)[0]));
        assert(signed_decimal(if a < 0 {
            a
        } else {
            b
        })[0] == '-');
    }
}

/// A fill's text, cut at its commas.
proof fn lemma_fill_text_cut(red: u64, green: u64, blue: u64)
    ensures
        ({
            let r = decimal(red as nat);
            let g = decimal(green as nat);
            let b = decimal(blue as nat);
            fill_text(Some((red, green, blue))) == ("Some(("@ + r) + seq![','] + ((seq![' '] + g)
                + seq![','] + ((seq![' '] + b) + seq![')'] + seq![')']))
        }),
        lacks("Some(("@ + decimal(red as nat), ','),
        lacks(seq![' '] + decimal(green as nat), ','),
        lacks(seq![' '] + decimal(blue as nat), ')'),
{
    let r = decimal(red as nat);
    let g = decimal(green as nat);
    let b = decimal(blue as nat);
    reveal_strlit("Some((");
    reveal_strlit(", ");
    reveal_strlit("))");
    assert(", "@ =~= seq![','] + seq![' ']);
    assert("))"@ =~= seq![')'] + seq![')']);
    assert(fill_text(Some((red, green, blue))) =~= ("Some(("@ + r) + seq![','] + ((seq![' '] + g)
        + seq![','] + ((seq![' '] + b) + seq![')'] + seq![')'])));
    lemma_decimal_lacks(red as nat, ',');
    lemma_decimal_lacks(green as nat, ',');
    lemma_decimal_lacks(blue as nat, ')');
    lemma_lacks_add("Some(("@, r, ',');
    lemma_lacks_add(seq![' '], g, ',');
    lemma_lacks_add(seq![' '], b, ')');
}

proof fn lemma_fill_injective(a: Option<(u64, u64, u64)>, b: Option<(u64, u64, u64)>)
    requires
        fill_text(a) == fill_text(b),
    ensures
        a == b,
{
    reveal_strlit("Some((");
    reveal_strlit("None");
    match (a, b) {
        (Some((r1, g1, b1)), Some((r2, g2, b2))) => {
            lemma_fill_text_cut(r1, g1, b1);
            lemma_fill_text_cut(r2, g2, b2);
            let (x1, x2) = ("Some(("@ + decimal(r1 as nat), "Some(("@ + decimal(r2 as nat));
            let (y1, y2) = (seq![' '] + decimal(g1 as nat), seq![' '] + decimal(g2 as nat));
            let (z1, z2) = (seq![' '] + decimal(b1 as nat), seq![' '] + decimal(b2 as nat));
            let end = seq![')'];
            lemma_split_at_first(
                x1,
                y1 + seq![','] + (z1 + end + end),
                x2,
                y2 + seq![','] + (z2 + end + end),
                ',',
            );
            lemma_split_at_first(y1, z1 + end + end, y2, z2 + end + end, ',');
            lemma_split_at_first(z1, end, z2, end, ')');
            lemma_cancel_prefix("Some(("@, decimal(r1 as nat), decimal(r2 as nat));
            lemma_cancel_prefix(seq![' '], decimal(g1 as nat), decimal(g2 as nat));
            lemma_cancel_prefix(seq![' '], decimal(b1 as nat), decimal(b2 as nat));
            law_decimal_injective(r1 as nat, r2 as nat);
            law_decimal_injective(g1 as nat, g2 as nat);
            law_decimal_injective(b1 as nat, b2 as nat);
        },
        (None, None) => {},
        (Some((r1, g1, b1)), None) => {
            lemma_fill_text_cut(r1, g1, b1);
            assert(fill_text(a)[0] == 'S');
            assert(fill_text(b)[0] == 'N');
        },
        (None, Some((r2, g2, b2))) => {
            lemma_fill_text_cut(r2, g2, b2);
            assert(fill_text(b)[0] == 'S');
            assert(fill_text(a)[0] == 'N');
        },
    }
}

/// A placement's text, cut at its first two commas.
proof fn lemma_placement_text_cut(placement: Placement)
    ensures
        placement_text(placement) == ("Placement { scaling: "@ + signed_decimal(
            placement.scaling as int,
        )) + seq![','] + ((" allow_clipping: "@ + bool_text(placement.allow_clipping)) + seq![',']
            + (" fill: "@ + fill_text(placement.fill) + " }"@)),
        lacks("Placement { scaling: "@ + signed_decimal(placement.scaling as int), ','),
        lacks(" allow_clipping: "@ + bool_text(placement.allow_clipping), ','),
{
    let n = signed_decimal(placement.scaling as int);
    let t = bool_text(placement.allow_clipping);
    let f = fill_text(placement.fill);
    reveal_strlit("Placement { scaling: ");
    reveal_strlit(", allow_clipping: ");
    reveal_strlit(" allow_clipping: ");
    reveal_strlit(", fill: ");
    reveal_strlit(" fill: ");
    reveal_strlit("true");
    reveal_strlit("false");
    assert(", allow_clipping: "@ =~= seq![','] + " allow_clipping: "@);
    assert(", fill: "@ =~= seq![','] + " fill: "@);
    assert(lacks("Placement { scaling: "@, ','));
    assert(lacks(" allow_clipping: "@, ','));
    assert(lacks(t, ','));
    lemma_signed_lacks(placement.scaling as int, ',');
    lemma_lacks_add("Placement { scaling: "@, n, ',');
    lemma_lacks_add(" allow_clipping: "@, t, ',');
    let p = "Placement { scaling: "@;
    let q = " allow_clipping: "@;
    let r = " fill: "@;
    let e = " }"@;
    let c = seq![','];
    assert(p + n + (c + q) + t + (c + r) + f + e =~= (p + n) + c + ((q + t) + c + (r + f + e)));
}

proof fn lemma_placement_injective(a: Placement, b: Placement)
    requires
        placement_text(a) == placement_text(b),
    ensures
        a == b,
{
    lemma_placement_text_cut(a);
    lemma_placement_text_cut(b);
    let p = "Placement { scaling: "@;
    let q = " allow_clipping: "@;
    let r = " fill: "@;
    let e = " }"@;
    let (n1, n2) = (signed_decimal(a.scaling as int), signed_decimal(b.scaling as int));
    let (t1, t2) = (bool_text(a.allow_clipping), bool_text(b.allow_clipping));
    let (f1, f2) = (fill_text(a.fill), fill_text(b.fill));
    lemma_split_at_first(
        p + n1,
        (q + t1) + seq![','] + (r + f1 + e),
        p + n2,
        (q + t2) + seq![','] + (r + f2 + e),
        ',',
    );
    lemma_split_at_first(q + t1, r + f1 + e, q + t2, r + f2 + e, ',');
    lemma_cancel_prefix(p, n1, n2);
    lemma_signed_injective(a.scaling as int, b.scaling as int);
    lemma_cancel_prefix(q, t1, t2);
    reveal_strlit("true");
    reveal_strlit("false");
    lemma_cancel_suffix(r + f1, r + f2, e);
    lemma_cancel_prefix(r, f1, f2);
    lemma_fill_injective(a.fill, b.fill);
}

/// Whether two pictures are the same: the same kind, the same file, and for a file the app chose
/// the same change of it, for the desktop's the same placement.
pub open spec fn same_source(a: Source, b: Source) -> bool {
    match (a, b) {
        (
            Source::Image { path: p, modified: m },
            Source::Image { path: q, modified: n },
        ) => p@ == q@ && m == n,
        (Source::BuiltIn { still: s }, Source::BuiltIn { still: t }) => s@ == t@,
        (
            Source::Desktop { path: p, placement: m },
            Source::Desktop { path: q, placement: n },
        ) => p@ == q@ && m == n,
        _ => false,
    }
}

/// The desktop's own pictures have absolute paths.
pub open spec fn is_absolute(source: Source) -> bool {
    match source {
        Source::Desktop { path, placement } => path@.len() > 0 && path@[0] == '/',
        _ => true,
    }
}

/// The cache never takes one picture for another: sources and screen sizes are filed under the same
/// key only if they are the same. A file replaced under the same name is a new picture.
pub proof fn law_keys_tell_pictures_apart(
    a: Source,
    b: Source,
    size_a: Seq<char>,
    size_b: Seq<char>,
)
    requires
        source_key(a, size_a) == source_key(b, size_b),
        !size_a.contains('|'),
        !size_b.contains('|'),
        is_absolute(a),
        is_absolute(b),
    ensures
        same_source(a, b),
        size_a == size_b,
{
    reveal_strlit("image|");
    reveal_strlit("built-in|");
    reveal_strlit("|");
    assert("|"@ =~= seq!['|']);
    let bar = seq!['|'];
    match (a, b) {
        (
            Source::Image { path: p, modified: m },
            Source::Image { path: q, modified: n },
        ) => {
            let x = "image|"@ + p@;
            let y = "image|"@ + q@;
            let dm = decimal(m as nat);
            let dn = decimal(n as nat);
            lemma_split_at_last(x + bar + dm, size_a, y + bar + dn, size_b, '|');
            lemma_decimal_lacks(m as nat, '|');
            lemma_decimal_lacks(n as nat, '|');
            lemma_split_at_last(x, dm, y, dn, '|');
            lemma_cancel_prefix("image|"@, p@, q@);
            law_decimal_injective(m as nat, n as nat);
        },
        (Source::BuiltIn { still: s }, Source::BuiltIn { still: t }) => {
            lemma_split_at_last("built-in|"@ + s@, size_a, "built-in|"@ + t@, size_b, '|');
            lemma_cancel_prefix("built-in|"@, s@, t@);
        },
        (
            Source::Desktop { path: p, placement: m },
            Source::Desktop { path: q, placement: n },
        ) => {
            let tm = placement_text(m);
            let tn = placement_text(n);
            lemma_placement_text_lacks_bar(m);
            lemma_placement_text_lacks_bar(n);
            lemma_split_at_last(p@ + bar + size_a, tm, q@ + bar + size_b, tn, '|');
            lemma_split_at_last(p@, size_a, q@, size_b, '|');
            lemma_placement_injective(m, n);
        },
        _ => {
            assert(source_key(a, size_a)[0] == match a {
                Source::Image { path, modified } => 'i',
                Source::BuiltIn { still } => 'b',
                Source::Desktop { path, placement } => '/',
            });
            assert(source_key(b, size_b)[0] == match b {
                Source::Image { path, modified } => 'i',
                Source::BuiltIn { still } => 'b',
                Source::Desktop { path, placement } => '/',
            });
        },
    }
}

/// What can change the desktop picture without the window moving: another Space with its own
/// picture, a display rearranged or rescaled, the system switching between light and dark, or a new
/// picture chosen in System Settings (noticed when the app comes back to the front).
#[derive(Clone, Copy, Debug, PartialEq, Eq, Structural)]
pub enum EnvironmentChange {
    ActiveSpaceDidChange,
    InterfaceThemeChanged,
    ScreenParametersDidChange,
    ApplicationDidBecomeActive,
}

/// Who announces a change.
#[derive(Clone, Copy, Debug, PartialEq, Eq, Structural)]
pub enum Center {
    Application,
    Workspace,
    Distributed,
}

/// A change to listen for.
#[derive(Clone, Copy, Debug, PartialEq, Eq, Structural)]
pub struct Observed {
    pub change: EnvironmentChange,
    pub center: Center,
}

/// Everything a wallpaper backdrop listens for.
pub fn observe_environment() -> (observed: Vec<Observed>)
    ensures
        observed@ == seq![
            Observed { change: EnvironmentChange::ActiveSpaceDidChange, center: Center::Workspace },
            Observed { change: EnvironmentChange::InterfaceThemeChanged, center: Center::Distributed },
            Observed {
                change: EnvironmentChange::ScreenParametersDidChange,
                center: Center::Application,
            },
            Observed {
                change: EnvironmentChange::ApplicationDidBecomeActive,
                center: Center::Application,
            },
        ],
{
    vec![
        Observed { change: EnvironmentChange::ActiveSpaceDidChange, center: Center::Workspace },
        Observed { change: EnvironmentChange::InterfaceThemeChanged, center: Center::Distributed },
        Observed {
            change: EnvironmentChange::ScreenParametersDidChange,
            center: Center::Application,
        },
        Observed {
            change: EnvironmentChange::ApplicationDidBecomeActive,
            center: Center::Application,
        },
    ]
}

/// The cache holds at most six pictures. A full one loses its oldest picture to a new one and moves
/// the others up; any other keeps all it had. The new picture is the last.
pub proof fn law_seventh_picture_drops_the_oldest(
    before: Seq<CachedPicture>,
    stored: CachedPicture,
)
    requires
        before.len() <= 6,
    ensures
        ({
            let after = after_store(before, stored);
            &&& after.last() == stored
            &&& before.len() == 6 ==> after.len() == 6 && forall|i: int|
                0 <= i < 5 ==> #[trigger] after[i] == before[i + 1]
            &&& before.len() < 6 ==> after.len() == before.len() + 1 && forall|i: int|
                0 <= i < before.len() ==> #[trigger] after[i] == before[i]
        }),
{
}

/// A key stands for the first picture filed under it, and for none where none is.
pub proof fn law_key_finds_its_first_picture(
    pictures: Seq<CachedPicture>,
    key: Seq<char>,
    i: int,
)
    requires
        0 <= i <= pictures.len(),
        forall|j: int| 0 <= j < i ==> (#[trigger] pictures[j]).key@ != key,
        i < pictures.len() ==> pictures[i].key@ == key,
    ensures
        i < pictures.len() ==> picture_for(pictures, key) == Some(pictures[i].image),
        i == pictures.len() ==> picture_for(pictures, key) is None,
{
    lemma_picture_skips(pictures, key, 0, i);
}

/// A colour's part is the nearest of 255 steps to its level, from none at nothing or less to all of
/// them at the full level or more.
pub proof fn law_part_is_the_nearest_of_255_steps(level: Level)
    ensures
        0 <= quantized(level) <= 255,
        level.units <= 0 ==> quantized(level) == 0,
        level.units >= 4_294_967_296 ==> quantized(level) == 255,
        0 <= level.units <= 4_294_967_296 ==> {
            &&& (2 * quantized(level) - 1) * 4_294_967_296 <= 2 * 255 * level.units
            &&& 2 * 255 * level.units < (2 * quantized(level) + 1) * 4_294_967_296
        },
{
    let units = clamped_level(level).units;
    assert(quantized(level) == (510 * units + 4_294_967_296) / 8_589_934_592int);
}

/// A placement takes the scaling, the clipping and each part of the colour from what the options say
/// of it; without options, or where they say nothing, it scales up or down, clips, and has no colour.
pub proof fn law_options_decide_what_they_name(
    placement: Placement,
    options: Option<DesktopOptions>,
)
    requires
        placement_from(placement, options),
    ensures
        options is None ==> placement.scaling == 3 && placement.allow_clipping && placement.fill
            is None,
        options is Some ==> {
            let options = options->0;
            &&& options.scaling is Some ==> placement.scaling == options.scaling->0
            &&& options.scaling is None ==> placement.scaling == 3
            &&& options.allow_clipping is Some ==> placement.allow_clipping
                == options.allow_clipping->0
            &&& options.allow_clipping is None ==> placement.allow_clipping
            &&& options.fill_color is None ==> placement.fill is None
            &&& options.fill_color is Some ==> {
                let fill = placement.fill->0;
                &&& placement.fill is Some
                &&& fill.0 == quantized(options.fill_color->0.red)
                &&& fill.1 == quantized(options.fill_color->0.green)
                &&& fill.2 == quantized(options.fill_color->0.blue)
            }
        },
{
}

/// Scaled proportionally down, a picture that is small enough at a quarter of its size is shown at
/// that, and any other is as wide or as high as the canvas: it is never shown smaller than it must
/// be.
pub proof fn law_scaling_down_stops_at_the_first_limit(
    placement: Placement,
    image: (int, int),
    canvas: (int, int),
)
    requires
        placement.scaling == 0,
        image.0 > 0,
        image.1 > 0,
    ensures
        ({
            let scale = placement_scale(placement, image, canvas).0;
            &&& placement_scale(placement, image, canvas).1 == scale
            &&& image.0 * scale.0 == canvas.0 * scale.1 || image.1 * scale.0 == canvas.1 * scale.1
                || 4 * scale.0 == scale.1
            &&& image.0 <= 4 * canvas.0 && image.1 <= 4 * canvas.1 ==> 4 * scale.0 == scale.1
        }),
{
    let fit_x = (canvas.0, image.0);
    let fit_y = (canvas.1, image.1);
    let fit = least(fit_x, fit_y);
    let natural = (1int, 4int);
    assert(image.0 * canvas.0 == canvas.0 * image.0) by (nonlinear_arith);
    assert(image.1 * canvas.1 == canvas.1 * image.1) by (nonlinear_arith);
    assert(less(natural, fit) <==> fit.1 < 4 * fit.0) by (nonlinear_arith)
        requires
            natural == (1int, 4int),
    ;
}

/// A side of the canvas is a quarter of the screen's in whole pixels, to the nearest, and at least
/// one pixel.
pub proof fn law_canvas_is_a_quarter_of_the_screen(screen: int)
    ensures
        canvas_side(screen) >= 65536,
        canvas_side(screen) % 65536 == 0,
        8 * canvas_side(screen) + 4 * 65536 > 2 * screen,
        canvas_side(screen) > 65536 ==> 8 * canvas_side(screen) - 4 * 65536 <= 2 * screen,
{
    let pixels = rounded(screen, CANVAS_DIVISOR * UNITS_PER_PIXEL);
    assert(CANVAS_DIVISOR * UNITS_PER_PIXEL == 262144);
    assert(pixels == (2 * screen + 262144) / 524288int);
}

/// The picture is drawn at a quarter of the screen's size, and its blur reaches a quarter of 60
/// pixels there.
pub proof fn law_blur_reaches_60_pixels_on_the_screen()
    ensures
        CANVAS_DIVISOR == 4,
        CANVAS_BLUR_RADIUS * CANVAS_DIVISOR == 60,
{
}

/// A picture held against the screen is as large as the screen and lies as far from the window's
/// content as the screen does, whatever the cover. One attached to the window has the cover's size,
/// its left edge and its distance from the top, or is the layer itself where there is no cover.
pub proof fn law_picture_lies_over_screen_cover_or_layer(
    layer: Bounds,
    screen_frame: Bounds,
    content: Bounds,
    cover: Option<Bounds>,
)
    ensures
        ({
            let held = picture_frame(layer@, screen_frame@, content@, true, cover);
            &&& held.x == screen_frame.origin.x.units - content.origin.x.units
            &&& held.y == screen_frame.origin.y.units - content.origin.y.units
            &&& held.w == screen_frame.size.width.units
            &&& held.h == screen_frame.size.height.units
        }),
        ({
            let attached = picture_frame(layer@, screen_frame@, content@, false, cover);
            &&& cover is Some ==> {
                let cover = cover->0;
                &&& attached.x == cover.origin.x.units
                &&& attached.y + attached.h + cover.origin.y.units == layer.size.height.units
                &&& attached.w == cover.size.width.units
                &&& attached.h == cover.size.height.units
            }
            &&& cover is None ==> {
                &&& attached.x == layer.origin.x.units
                &&& attached.y == layer.origin.y.units
                &&& attached.w == layer.size.width.units
                &&& attached.h == layer.size.height.units
            }
        }),
{
}

/// A picture held against the screen is stretched over it, one attached to the window fills its
/// frame; the numbers that say which sides follow the view are none, and width and height.
pub proof fn law_picture_stretches_only_over_the_screen()
    ensures
        picture_gravity(true) == Gravity::Resize,
        picture_gravity(false) == Gravity::ResizeAspectFill,
        FIXED == 0,
        WIDTH_AND_HEIGHT_SIZABLE == 2 + 16,
{
}

/// The picture's layer is the one named wallpaper.
pub proof fn law_picture_layer_is_named_wallpaper(name: Option<String>)
    ensures
        name is None ==> !is_picture_layer(name),
        name is Some ==> (is_picture_layer(name) <==> name->0@ == seq![
            'w',
            'a',
            'l',
            'l',
            'p',
            'a',
            'p',
            'e',
            'r',
        ]),
{
    reveal_strlit("wallpaper");
    assert("wallpaper"@ =~= seq!['w', 'a', 'l', 'l', 'p', 'a', 'p', 'e', 'r']);
}

/// A picture the app chose is filed under its path, when it was changed and the screen's size; a
/// built-in one under its still and the size; the desktop's own under its path, the size and its
/// placement.
pub proof fn law_keys_name_what_they_stand_for(source: Source, size: Seq<char>)
    ensures
        source matches Source::Image { path, modified } ==> source_key(source, size) == "image|"@
            + path@ + "|"@ + decimal(modified as nat) + "|"@ + size,
        source matches Source::BuiltIn { still } ==> source_key(source, size) == "built-in|"@
            + still@ + "|"@ + size,
        source matches Source::Desktop { path, placement } ==> source_key(source, size) == path@
            + "|"@ + size + "|"@ + "Placement { scaling: "@ + signed_decimal(
            placement.scaling as int,
        ) + ", allow_clipping: "@ + (if placement.allow_clipping {
            "true"@
        } else {
            "false"@
        }) + ", fill: "@ + (match placement.fill {
            None => "None"@,
            Some(fill) => "Some(("@ + decimal(fill.0 as nat) + ", "@ + decimal(fill.1 as nat)
                + ", "@ + decimal(fill.2 as nat) + "))"@,
        }) + " }"@,
{
    match source {
        Source::Desktop { path, placement } => {
            let head = path@ + "|"@ + size + "|"@;
            let text = "Placement { scaling: "@ + signed_decimal(placement.scaling as int)
                + ", allow_clipping: "@ + bool_text(placement.allow_clipping) + ", fill: "@
                + fill_text(placement.fill) + " }"@;
            assert(head + text =~= head + "Placement { scaling: "@ + signed_decimal(
                placement.scaling as int,
            ) + ", allow_clipping: "@ + bool_text(placement.allow_clipping) + ", fill: "@
                + fill_text(placement.fill) + " }"@);
        },
        _ => {},
    }
}

/// The desktop's default picture and anything in the folder of default wallpapers stand for a
/// wallpaper that is built in; every other file is the picture itself.
pub proof fn law_defaults_stand_for_built_in_wallpapers(path: Seq<char>, resolved: Seq<char>)
    ensures
        path == "/System/Library/CoreServices/DefaultDesktop.heic"@ ==> is_placeholder(
            path,
            resolved,
        ),
        forall|file: Seq<char>|
            #![trigger "/System/Library/Wallpapers/.default/"@ + file]
            is_placeholder(path, "/System/Library/Wallpapers/.default/"@ + file),
        is_placeholder(path, resolved) ==> path
            == "/System/Library/CoreServices/DefaultDesktop.heic"@ || exists|file: Seq<char>|
            #![trigger "/System/Library/Wallpapers/.default/"@ + file]
            resolved == "/System/Library/Wallpapers/.default/"@ + file,
{
    let folder = "/System/Library/Wallpapers/.default/"@;
    assert forall|file: Seq<char>| #![trigger folder + file] is_placeholder(path, folder + file) by {
        assert(folder =~= (folder + file).subrange(0, folder.len() as int));
    }
    if folder.is_prefix_of(resolved) {
        assert(resolved =~= folder + resolved.skip(folder.len() as int));
    }
}

/// A blurred picture lies with its middle on the middle of a canvas of a quarter of the screen, on
/// black unless the placement has a colour, and is blurred as far as 60 pixels of the screen.
pub proof fn law_blurred_picture_is_centered(
    plan: BlurPlan,
    extent: Bounds,
    placement: Placement,
    screen: Size,
)
    requires
        blur_planned(plan, extent, placement, screen),
    ensures
        (2 * extent.origin.x.units + extent.size.width.units) * plan.scale_x.num + plan.shift_x.num
            == plan.canvas.width.units * plan.scale_x.den,
        (2 * extent.origin.y.units + extent.size.height.units) * plan.scale_y.num
            + plan.shift_y.num == plan.canvas.height.units * plan.scale_y.den,
        plan.shift_x.den == plan.scale_x.den + plan.scale_x.den,
        plan.shift_y.den == plan.scale_y.den + plan.scale_y.den,
        plan.canvas.width.units == canvas_side(screen.width.units as int),
        plan.canvas.height.units == canvas_side(screen.height.units as int),
        placement.fill is None ==> plan.background == (0u64, 0u64, 0u64),
        placement.fill is Some ==> plan.background == placement.fill->0,
        plan.radius * 4 == 60,
{
    law_picture_is_centered(
        extent@.x,
        extent@.w,
        plan.canvas.width@,
        (plan.scale_x.num as int, plan.scale_x.den as int),
    );
    law_picture_is_centered(
        extent@.y,
        extent@.h,
        plan.canvas.height@,
        (plan.scale_y.num as int, plan.scale_y.den as int),
    );
}

/// A picture stretched over the screen takes the whole canvas in either direction; one that fills
/// the screen keeps its shape and leaves nothing of the canvas free; one that fits keeps its shape and
/// leaves nothing of itself out.
pub proof fn law_blurred_picture_fills_fits_or_stretches(
    plan: BlurPlan,
    extent: Bounds,
    placement: Placement,
    screen: Size,
)
    requires
        blur_planned(plan, extent, placement, screen),
        extent.size.width.units > 0,
        extent.size.height.units > 0,
    ensures
        ({
            let width = extent.size.width.units * plan.scale_x.num;
            let height = extent.size.height.units * plan.scale_y.num;
            let full_width = plan.canvas.width.units * plan.scale_x.den;
            let full_height = plan.canvas.height.units * plan.scale_y.den;
            &&& placement.scaling == 1 ==> width == full_width && height == full_height
            &&& placement.scaling != 1 ==> plan.scale_x@ == plan.scale_y@
            &&& placement.scaling == 2 ==> plan.scale_x@ == (1int, 4int)
            &&& placement.scaling == 0 ==> width <= full_width && height <= full_height
            &&& !(0 <= placement.scaling <= 2) && placement.allow_clipping ==> width >= full_width
                && height >= full_height && (width == full_width || height == full_height)
            &&& !(0 <= placement.scaling <= 2) && !placement.allow_clipping ==> width
                <= full_width && height <= full_height && (width == full_width || height
                == full_height)
        }),
{
    law_placements(
        placement,
        (extent@.w, extent@.h),
        (plan.canvas.width@, plan.canvas.height@),
    );
}

/// A desktop without a file has no picture. One that reports a default file shows the still of its
/// built-in wallpaper, or nothing where there is none, and never the default file; one that reports
/// any other shows that file, still or not.
pub proof fn law_default_file_is_never_shown(
    source: Option<Source>,
    path: Option<String>,
    resolved: Seq<char>,
    still: Option<String>,
    options: Option<DesktopOptions>,
)
    requires
        is_desktop_source(source, path, resolved, still, options),
    ensures
        path is None ==> source is None,
        path is Some && is_placeholder(path->0@, resolved) ==> match still {
            Some(still) => source == Some(Source::BuiltIn { still }),
            None => source is None,
        },
        path is Some && !is_placeholder(path->0@, resolved) ==> match source {
            Some(Source::Desktop { path: shown, placement }) => shown == path->0 && placement_from(
                placement,
                options,
            ),
            _ => false,
        },
{
}

/// A picture is blurred once: where it is not there it is to be blurred, and once it is stored under
/// the key that was asked for, it is found by the same source on a screen of the same size. The
/// desktop's own is placed the desktop's way, every other one fills the screen.
pub proof fn law_picture_is_blurred_once(
    before: Seq<CachedPicture>,
    first: Lookup,
    again: Lookup,
    source: Source,
    size: Seq<char>,
    stored: CachedPicture,
)
    requires
        before.len() <= 6,
        is_lookup(first, before, source, size),
        first is Render,
        stored.key == first->key,
        is_lookup(again, after_store(before, stored), source, size),
    ensures
        again == (Lookup::Ready { image: stored.image }),
        source matches Source::Desktop { path, placement } ==> first->placement == placement,
        !(source is Desktop) ==> first->placement.scaling == 3 && first->placement.allow_clipping
            && first->placement.fill is None,
{
    law_stored_picture_outlives_five_more(before, stored, Seq::empty());
    assert(after_stores(after_store(before, stored), Seq::empty()) == after_store(before, stored));
}

/// A picture that was blurred before is not blurred again.
pub proof fn law_blurred_picture_is_ready(
    found: Lookup,
    pictures: Seq<CachedPicture>,
    source: Source,
    size: Seq<char>,
)
    requires
        is_lookup(found, pictures, source, size),
    ensures
        picture_for(pictures, source_key(source, size)) is Some <==> found is Ready,
        found is Ready ==> Some(found->image) == picture_for(pictures, source_key(source, size)),
{
}

} // verus!
