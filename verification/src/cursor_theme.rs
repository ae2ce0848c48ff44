//! Cursor sprites from XCursor themes: choosing the image size that best
//! matches the requested one, building a sprite from its frames, and the
//! sprite cache keyed by theme, size and icon name.

use vstd::prelude::*;
use std::sync::Arc;
use crate::cursor_sprite::{FrameData, SoftwareCursorSprite};
use crate::text::{str_chars, trim_bounds, trim_chars, string_from_range};

verus! {

/// One image of an XCursor file, as the `xcursor` parser reads it.
#[derive(Debug)]
pub struct CursorImage {
    /// Nominal size of the image.
    pub size: u32,
    /// Actual width; need not match `size`.
    pub width: u32,
    pub height: u32,
    pub xhot: u32,
    pub yhot: u32,
    /// Time the image stays on screen, milliseconds.
    pub delay: u32,
    /// Pixel bytes in file order, four per pixel.
    pub pixels_rgba: Vec<u8>,
}

/// A cursor image with its pixels taken as a sequence.
pub struct CursorImageView {
    pub size: u32,
    pub width: u32,
    pub height: u32,
    pub xhot: u32,
    pub yhot: u32,
    pub delay: u32,
    pub pixels_rgba: Seq<u8>,
}

impl View for CursorImage {
    type V = CursorImageView;

    open spec fn view(&self) -> CursorImageView {
        CursorImageView {
            size: self.size,
            width: self.width,
            height: self.height,
            xhot: self.xhot,
            yhot: self.yhot,
            delay: self.delay,
            pixels_rgba: self.pixels_rgba@,
        }
    }
}

pub open spec fn images_view(images: Seq<CursorImage>) -> Seq<CursorImageView> {
    images.map_values(|i: CursorImage| i@)
}

/// What `xcursor::parser::parse_xcursor` returns for the bytes of a file:
/// its images, or `None` when the file is malformed.
pub uninterp spec fn xcursor_images(content: Seq<u8>) -> Option<Seq<CursorImageView>>;

/// The checks `xcursor` makes of every image it returns.
pub open spec fn xcursor_image_checked(i: CursorImageView) -> bool {
    &&& 0 < i.width <= 0x7fff
    &&& 0 < i.height <= 0x7fff
    &&& i.xhot <= i.width
    &&& i.yhot <= i.height
    &&& i.pixels_rgba.len() == 4 * i.width * i.height
}

/// Calls `xcursor::parser::parse_xcursor` and keeps the fields the sprite
/// code reads. What it returns is named `xcursor_images(content)`; the
/// parser's source shows that every image it returns has a width and height
/// in 1..=0x7fff, a hotspot inside the image and 4 bytes per pixel.
#[verifier::external_body]
fn parse_xcursor(content: &[u8]) -> (images: Option<Vec<CursorImage>>)
    ensures
        match images {
            Some(v) => xcursor_images(content@) == Some(images_view(v@)),
            None => xcursor_images(content@) is None,
        },
        images matches Some(v) ==> forall|k: int|
            0 <= k < v.len() ==> xcursor_image_checked(#[trigger] v@[k]@),
{
    xcursor::parser::parse_xcursor(content).map(|imgs| {
        imgs.into_iter().map(|img| CursorImage {
            size: img.size,
            width: img.width,
            height: img.height,
            xhot: img.xhot,
            yhot: img.yhot,
            delay: img.delay,
            pixels_rgba: img.pixels_rgba,
        }).collect()
    })
}

// ---------------------------------------------------------------------------
// Size selection
// ---------------------------------------------------------------------------

pub open spec fn abs_diff(a: u32, b: u32) -> int {
    if a >= b { a - b } else { b - a }
}

/// How far an image is from the requested size, compared lexicographically:
/// nominal size first, then actual width, then delay.
pub open spec fn size_key(i: CursorImageView, requested: u32) -> (int, int, int) {
    (abs_diff(i.size, requested), abs_diff(i.width, requested), i.delay as int)
}

pub open spec fn key_lt(a: (int, int, int), b: (int, int, int)) -> bool {
    a.0 < b.0 || (a.0 == b.0 && (a.1 < b.1 || (a.1 == b.1 && a.2 < b.2)))
}

/// `i` is the first image with the smallest key.
pub open spec fn is_best_image(images: Seq<CursorImageView>, requested: u32, i: int) -> bool {
    &&& 0 <= i < images.len()
    &&& forall|j: int|
        0 <= j < images.len() ==> !key_lt(
            size_key(#[trigger] images[j], requested),
            size_key(images[i], requested),
        )
    &&& forall|j: int|
        0 <= j < i ==> key_lt(size_key(images[i], requested), size_key(#[trigger] images[j], requested))
}

/// The size to load: that of the best image, or the requested size when
/// there are no images.
pub open spec fn target_size(images: Seq<CursorImageView>, requested: u32) -> u32 {
    if images.len() == 0 {
        requested
    } else {
        images[choose|i: int| is_best_image(images, requested, i)].size
    }
}

/// All images whose nominal size and width both equal the target size, in
/// file order.
pub open spec fn best_size_frames(images: Seq<CursorImageView>, requested: u32) -> Seq<CursorImageView> {
    let t = target_size(images, requested);
    images.filter(|i: CursorImageView| i.size == t && i.width == t)
}

/// Index of the first image with the smallest key among the first `n`.
spec fn first_best(images: Seq<CursorImageView>, requested: u32, n: int) -> int
    decreases n,
{
    if n <= 1 {
        0
    } else {
        let b = first_best(images, requested, n - 1);
        if key_lt(size_key(images[n - 1], requested), size_key(images[b], requested)) {
            n - 1
        } else {
            b
        }
    }
}

proof fn lemma_first_best(images: Seq<CursorImageView>, requested: u32, n: int)
    requires
        1 <= n <= images.len(),
    ensures
        0 <= first_best(images, requested, n) < n,
        forall|j: int|
            0 <= j < n ==> !key_lt(
                size_key(#[trigger] images[j], requested),
                size_key(images[first_best(images, requested, n)], requested),
            ),
        forall|j: int|
            0 <= j < first_best(images, requested, n) ==> key_lt(
                size_key(images[first_best(images, requested, n)], requested),
                size_key(#[trigger] images[j], requested),
            ),
    decreases n,
{
    if n > 1 {
        lemma_first_best(images, requested, n - 1);
        let b = first_best(images, requested, n - 1);
        let kn = size_key(images[n - 1], requested);
        let kb = size_key(images[b], requested);
        if key_lt(kn, kb) {
            assert forall|j: int| 0 <= j < n implies !key_lt(size_key(#[trigger] images[j], requested), kn) by {
                lemma_key_lt_total(size_key(images[j], requested), kb);
            }
            assert forall|j: int| 0 <= j < n - 1 implies key_lt(kn, size_key(#[trigger] images[j], requested)) by {
                lemma_key_lt_total(size_key(images[j], requested), kb);
            }
        } else {
            lemma_key_lt_total(kn, kb);
        }
    }
}

/// The size chosen for a requested size is the nominal size of one of the
/// images, no image is nominally closer to the request, and the frames
/// are exactly the images of that nominal size whose width is that size
/// too, in file order.
#[allow(deprecated)]
pub proof fn lemma_best_size_choice(images: Seq<CursorImageView>, requested: u32)
    requires
        images.len() > 0,
    ensures
        ({
            let t = target_size(images, requested);
            let frames = best_size_frames(images, requested);
            &&& exists|i: int| 0 <= i < images.len() && #[trigger] images[i].size == t
            &&& forall|j: int| 0 <= j < images.len() ==> abs_diff(#[trigger] images[j].size, requested) >= abs_diff(t, requested)
            &&& forall|k: int| 0 <= k < frames.len() ==> (#[trigger] frames[k]).size == t && frames[k].width == t
            &&& forall|j: int| 0 <= j < images.len() && (#[trigger] images[j]).size == t && images[j].width == t
                ==> frames.contains(images[j])
        }),
{
    lemma_first_best(images, requested, images.len() as int);
    assert(is_best_image(images, requested, first_best(images, requested, images.len() as int)));
    let c = choose|i: int| is_best_image(images, requested, i);
    let t = target_size(images, requested);
    assert(images[c].size == t);
    assert forall|j: int| 0 <= j < images.len() implies abs_diff(#[trigger] images[j].size, requested) >= abs_diff(t, requested) by {
        assert(!key_lt(size_key(images[j], requested), size_key(images[c], requested)));
    }
    let pred = |i: CursorImageView| i.size == t && i.width == t;
    images.filter_lemma(pred);
}

fn abs_diff_u32(a: u32, b: u32) -> (d: u32)
    ensures
        d == abs_diff(a, b),
{
    if a >= b { a - b } else { b - a }
}

fn image_key_less(a: &CursorImage, b: &CursorImage, requested: u32) -> (r: bool)
    ensures
        r == key_lt(size_key(a@, requested), size_key(b@, requested)),
{
    let a0 = abs_diff_u32(a.size, requested);
    let b0 = abs_diff_u32(b.size, requested);
    let a1 = abs_diff_u32(a.width, requested);
    let b1 = abs_diff_u32(b.width, requested);
    a0 < b0 || (a0 == b0 && (a1 < b1 || (a1 == b1 && a.delay < b.delay)))
}

proof fn lemma_key_lt_total(a: (int, int, int), b: (int, int, int))
    ensures
        !key_lt(a, b) && !key_lt(b, a) ==> a == b,
        key_lt(a, b) ==> !key_lt(b, a),
{
}

/// Copies an image.
pub fn clone_image(i: &CursorImage) -> (c: CursorImage)
    ensures
        c@ == i@,
{
    let pixels = i.pixels_rgba.clone();
    assert(pixels@ =~= i.pixels_rgba@);
    CursorImage {
        size: i.size,
        width: i.width,
        height: i.height,
        xhot: i.xhot,
        yhot: i.yhot,
        delay: i.delay,
        pixels_rgba: pixels,
    }
}

/// Picks the target size (smallest difference of nominal size, then of real
/// width, to the requested size; the delay only breaks ties; the first image
/// wins among equals) and returns all frames of that size, in file order.
pub fn pick_best_size_frames(images: &[CursorImage], requested_size: u32) -> (frames: Vec<CursorImage>)
    ensures
        images_view(frames@) == best_size_frames(images_view(images@), requested_size),
{
    let ghost iv = images_view(images@);
    let mut target = requested_size;
    if images.len() > 0 {
        let mut best: usize = 0;
        let mut i: usize = 1;
        while i < images.len()
            invariant
                iv == images_view(images@),
                iv.len() == images.len(),
                1 <= i <= images.len(),
                best < i,
                forall|j: int|
                    0 <= j < i ==> !key_lt(
                        size_key(#[trigger] iv[j], requested_size),
                        size_key(iv[best as int], requested_size),
                    ),
                forall|j: int|
                    0 <= j < best ==> key_lt(
                        size_key(iv[best as int], requested_size),
                        size_key(#[trigger] iv[j], requested_size),
                    ),
            decreases images.len() - i,
        {
            if image_key_less(&images[i], &images[best], requested_size) {
                proof {
                    assert forall|j: int| 0 <= j < i + 1 implies !key_lt(
                        size_key(#[trigger] iv[j], requested_size),
                        size_key(iv[i as int], requested_size),
                    ) by {
                        lemma_key_lt_total(size_key(iv[j], requested_size), size_key(iv[best as int], requested_size));
                    }
                    assert forall|j: int| 0 <= j < i implies key_lt(
                        size_key(iv[i as int], requested_size),
                        size_key(#[trigger] iv[j], requested_size),
                    ) by {
                        lemma_key_lt_total(size_key(iv[j], requested_size), size_key(iv[best as int], requested_size));
                    }
                }
                best = i;
            }
            i = i + 1;
        }
        proof {
            assert(is_best_image(iv, requested_size, best as int));
            let c = choose|k: int| is_best_image(iv, requested_size, k);
            if c < best {
                assert(key_lt(size_key(iv[best as int], requested_size), size_key(iv[c], requested_size)));
            } else if best < c {
                assert(key_lt(size_key(iv[c], requested_size), size_key(iv[best as int], requested_size)));
            }
            assert(c == best);
        }
        target = images[best].size;
    }
    assert(target == target_size(iv, requested_size));
    let ghost pred = |i: CursorImageView| i.size == target && i.width == target;
    let mut frames: Vec<CursorImage> = Vec::new();
    let mut k: usize = 0;
    while k < images.len()
        invariant
            iv == images_view(images@),
            iv.len() == images.len(),
            k <= images.len(),
            pred == (|i: CursorImageView| i.size == target && i.width == target),
            images_view(frames@) == iv.subrange(0, k as int).filter(pred),
        decreases images.len() - k,
    {
        proof {
            reveal(Seq::filter);
            assert(iv.subrange(0, k + 1).drop_last() =~= iv.subrange(0, k as int));
        }
        if images[k].size == target && images[k].width == target {
            let c = clone_image(&images[k]);
            let ghost before = frames@;
            frames.push(c);
            assert(images_view(frames@) =~= images_view(before).push(iv[k as int]));
        }
        k = k + 1;
    }
    assert(iv.subrange(0, images.len() as int) =~= iv);
    frames
}


// ---------------------------------------------------------------------------
// Sprite construction
// ---------------------------------------------------------------------------

/// Hotspot coordinate of a sprite: the image's hotspot read as an `i32`,
/// clamped into the image (`0..=dim-1`, or to 0 when `dim-1` exceeds
/// `i32::MAX`).
pub open spec fn clamped_hotspot(hot: u32, dim: u32) -> i32 {
    let last: int = if dim == 0 { 0 } else { dim - 1 };
    let max: int = if last <= i32::MAX { last } else { 0 };
    let h = hot as i32;
    if h < 0 {
        0
    } else if h > max {
        max as i32
    } else {
        h
    }
}

/// `sprite` is what the frames `fs` give: dimensions and hotspot from the
/// first frame, one sprite frame per image with its pixels and delay.
pub open spec fn sprite_from_frames(sprite: SoftwareCursorSprite, fs: Seq<CursorImageView>) -> bool {
    &&& fs.len() > 0
    &&& sprite.width == fs[0].width
    &&& sprite.height == fs[0].height
    &&& sprite.hotspot_x == clamped_hotspot(fs[0].xhot, fs[0].width)
    &&& sprite.hotspot_y == clamped_hotspot(fs[0].yhot, fs[0].height)
    &&& sprite.frames@.len() == fs.len()
    &&& forall|k: int|
        0 <= k < fs.len() ==> (#[trigger] sprite.frames@[k]).pixels_bgra@ == fs[k].pixels_rgba
            && sprite.frames@[k].delay_ms == fs[k].delay
}

/// The sprite the images of one cursor file give for a requested size:
/// `None` when no image has the chosen size, else built from all frames of
/// that size.
pub open spec fn sprite_for_images(
    r: Option<SoftwareCursorSprite>,
    images: Seq<CursorImageView>,
    requested: u32,
) -> bool {
    match r {
        None => best_size_frames(images, requested).len() == 0,
        Some(s) => sprite_from_frames(s, best_size_frames(images, requested)),
    }
}

/// A sprite takes its size from the first frame of the chosen size, and
/// its hotspot from that frame's hotspot: `hotspot_x` from `xhot` and
/// `hotspot_y` from `yhot`, kept as they are inside the image and moved
/// to the last column (row) when they lie past it. Its frames are the
/// chosen images in order, each with that image's pixels and delay.
pub proof fn lemma_sprite_hotspot(sprite: SoftwareCursorSprite, images: Seq<CursorImageView>, requested: u32)
    requires
        sprite_for_images(Some(sprite), images, requested),
    ensures
        ({
            let f = best_size_frames(images, requested)[0];
            &&& sprite.width == f.width
            &&& sprite.height == f.height
            &&& 0 <= sprite.hotspot_x
            &&& 0 <= sprite.hotspot_y
            &&& f.xhot < f.width <= i32::MAX ==> sprite.hotspot_x == f.xhot
            &&& f.yhot < f.height <= i32::MAX ==> sprite.hotspot_y == f.yhot
            &&& 1 <= f.width <= f.xhot + 1 && f.xhot <= i32::MAX ==> sprite.hotspot_x == f.width - 1
            &&& 1 <= f.height <= f.yhot + 1 && f.yhot <= i32::MAX ==> sprite.hotspot_y == f.height - 1
            &&& sprite.frames@.len() == best_size_frames(images, requested).len()
            &&& forall|k: int|
                0 <= k < sprite.frames@.len() ==> (#[trigger] sprite.frames@[k]).delay_ms == best_size_frames(
                    images,
                    requested,
                )[k].delay && sprite.frames@[k].pixels_bgra@ == best_size_frames(images, requested)[k].pixels_rgba
        }),
{
    let f = best_size_frames(images, requested)[0];
    lemma_clamped_hotspot(f.xhot, f.width);
    lemma_clamped_hotspot(f.yhot, f.height);
}

proof fn lemma_clamped_hotspot(hot: u32, dim: u32)
    ensures
        0 <= clamped_hotspot(hot, dim),
        hot < dim <= i32::MAX ==> clamped_hotspot(hot, dim) == hot,
        1 <= dim <= hot + 1 && hot <= i32::MAX ==> clamped_hotspot(hot, dim) == dim - 1,
{
    if hot <= 0x7fff_ffff {
        assert(hot as i32 == hot) by (bit_vector)
            requires
                hot <= 0x7fff_ffff,
        ;
    } else {
        assert((hot as i32) < 0) by (bit_vector)
            requires
                hot > 0x7fff_ffff,
        ;
    }
}

fn clamp_hotspot(hot: u32, dim: u32) -> (h: i32)
    ensures
        h == clamped_hotspot(hot, dim),
{
    let last: u32 = if dim == 0 { 0 } else { dim - 1 };
    let max: i32 = if last <= 0x7fff_ffff { last as i32 } else { 0 };
    let h = hot as i32;
    if h < 0 {
        0
    } else if h > max {
        max
    } else {
        h
    }
}

/// Builds the sprite for `requested_size` from the images of one cursor
/// file (the part of theme loading that follows reading the file).
pub fn sprite_from_images(images: &[CursorImage], requested_size: u32) -> (sprite: Option<SoftwareCursorSprite>)
    ensures
        sprite_for_images(sprite, images_view(images@), requested_size),
{
    let frames = pick_best_size_frames(images, requested_size);
    let ghost fs = images_view(frames@);
    if frames.len() == 0 {
        return None;
    }
    let first = &frames[0];
    assert(fs[0] == first@);
    let width = first.width as usize;
    let height = first.height as usize;
    let hotspot_x = clamp_hotspot(first.xhot, first.width);
    let hotspot_y = clamp_hotspot(first.yhot, first.height);
    let mut frame_data: Vec<FrameData> = Vec::new();
    let mut k: usize = 0;
    while k < frames.len()
        invariant
            fs == images_view(frames@),
            k <= frames.len(),
            frame_data@.len() == k,
            forall|j: int|
                0 <= j < k ==> (#[trigger] frame_data@[j]).pixels_bgra@ == fs[j].pixels_rgba
                    && frame_data@[j].delay_ms == fs[j].delay,
        decreases frames.len() - k,
    {
        let img = &frames[k];
        assert(fs[k as int] == img@);
        let pixels = img.pixels_rgba.clone();
        assert(pixels@ =~= img.pixels_rgba@);
        frame_data.push(FrameData { pixels_bgra: pixels, delay_ms: img.delay });
        k = k + 1;
    }
    Some(SoftwareCursorSprite { width, height, hotspot_x, hotspot_y, frames: frame_data })
}

/// Parses the bytes of an XCursor file and builds the sprite for
/// `requested_size`; `None` when the file does not parse or has no image of
/// the chosen size.
pub fn sprite_from_xcursor(content: &[u8], requested_size: u32) -> (sprite: Option<SoftwareCursorSprite>)
    ensures
        match xcursor_images(content@) {
            None => sprite is None,
            Some(images) => sprite_for_images(sprite, images, requested_size),
        },
{
    match parse_xcursor(content) {
        None => None,
        Some(images) => sprite_from_images(images.as_slice(), requested_size),
    }
}


// ---------------------------------------------------------------------------
// Sprite cache
// ---------------------------------------------------------------------------

/// Theme a configured name resolves to: the trimmed name, or "Adwaita" when
/// it is blank.
pub open spec fn resolved_theme(theme: Seq<char>) -> Seq<char> {
    if trim_chars(theme).len() == 0 {
        "Adwaita"@
    } else {
        trim_chars(theme)
    }
}

/// Cursor size actually loaded: the configured size clamped to 8..=128.
pub open spec fn clamped_size(size: u32) -> u32 {
    if size < 8 {
        8
    } else if size > 128 {
        128
    } else {
        size
    }
}

/// The loaded cursor size is the configured one when it lies in 8..=128,
/// and the nearer bound otherwise; a blank theme name means Adwaita and
/// any other is used trimmed.
pub proof fn lemma_sprite_key_parts(theme: Seq<char>, size: u32)
    ensures
        8 <= size <= 128 ==> clamped_size(size) == size,
        size < 8 ==> clamped_size(size) == 8,
        size > 128 ==> clamped_size(size) == 128,
        trim_chars(theme).len() == 0 ==> resolved_theme(theme) == "Adwaita"@,
        trim_chars(theme).len() > 0 ==> resolved_theme(theme) == trim_chars(theme),
{
}

/// What a cached sprite is looked up by.
#[derive(Debug)]
pub struct SpriteKey {
    pub theme: String,
    pub size: u32,
    pub icon: String,
}

impl View for SpriteKey {
    type V = (Seq<char>, u32, Seq<char>);

    open spec fn view(&self) -> (Seq<char>, u32, Seq<char>) {
        (self.theme@, self.size, self.icon@)
    }
}

/// The cache key for a configured theme and size and an icon name.
pub fn sprite_key(theme: &str, size: u32, icon: &str) -> (key: SpriteKey)
    ensures
        key@ == (resolved_theme(theme@), clamped_size(size), icon@),
{
    let cs = str_chars(theme);
    let (a, b) = trim_bounds(&cs);
    let theme = if a == b {
        String::from_str("Adwaita")
    } else {
        string_from_range(&cs, a, b)
    };
    let size = if size < 8 {
        8
    } else if size > 128 {
        128
    } else {
        size
    };
    SpriteKey { theme, size, icon: String::from_str(icon) }
}

/// Themes to load a cursor from, in order: the theme itself, then Adwaita
/// unless the theme is Adwaita.
pub open spec fn themes_to_try_spec(theme: Seq<char>) -> Seq<Seq<char>> {
    if theme == "Adwaita"@ {
        seq![theme]
    } else {
        seq![theme, "Adwaita"@]
    }
}

pub fn themes_to_try(theme: &String) -> (themes: Vec<String>)
    ensures
        themes@.map_values(|s: String| s@) == themes_to_try_spec(theme@),
{
    let mut v: Vec<String> = Vec::new();
    v.push(theme.clone());
    let adwaita = String::from_str("Adwaita");
    if !(*theme == adwaita) {
        v.push(adwaita);
    }
    assert(v@.map_values(|s: String| s@) =~= themes_to_try_spec(theme@));
    v
}

/// Icons to look a cursor up by, in order: the icon itself, then the
/// default arrow unless the icon is the default arrow.
pub open spec fn icons_to_try_spec(icon: Seq<char>) -> Seq<Seq<char>> {
    if icon == "default"@ {
        seq![icon]
    } else {
        seq![icon, "default"@]
    }
}

pub fn icons_to_try(icon: &String) -> (icons: Vec<String>)
    ensures
        icons@.map_values(|s: String| s@) == icons_to_try_spec(icon@),
{
    let mut v: Vec<String> = Vec::new();
    v.push(icon.clone());
    let default_icon = String::from_str("default");
    if !(*icon == default_icon) {
        v.push(default_icon);
    }
    assert(v@.map_values(|s: String| s@) =~= icons_to_try_spec(icon@));
    v
}

/// Calls `Arc::clone`: another handle on the same sprite.
#[verifier::external_body]
fn share_sprite(s: &Arc<SoftwareCursorSprite>) -> (t: Arc<SoftwareCursorSprite>)
    ensures
        t == *s,
{
    s.clone()
}

fn share_entry(e: &Option<Arc<SoftwareCursorSprite>>) -> (r: Option<Arc<SoftwareCursorSprite>>)
    ensures
        r == *e,
{
    match e {
        Some(s) => Some(share_sprite(s)),
        None => None,
    }
}

/// Sprites loaded so far, by theme, size and icon name; `None` records a
/// cursor that no theme provides, so it is not looked for again.
pub struct CursorSpriteCache {
    entries: Vec<(SpriteKey, Option<Arc<SoftwareCursorSprite>>)>,
}

impl View for CursorSpriteCache {
    type V = Map<(Seq<char>, u32, Seq<char>), Option<Arc<SoftwareCursorSprite>>>;

    /// The cache as a map from key to what was stored.
    closed spec fn view(&self) -> Map<(Seq<char>, u32, Seq<char>), Option<Arc<SoftwareCursorSprite>>> {
        Map::new(
            |k: (Seq<char>, u32, Seq<char>)|
                exists|i: int| 0 <= i < self.entries.len() && #[trigger] self.entries@[i].0@ == k,
            |k: (Seq<char>, u32, Seq<char>)|
                self.entries@[choose|i: int|
                    0 <= i < self.entries.len() && #[trigger] self.entries@[i].0@ == k].1,
        )
    }
}

impl CursorSpriteCache {
    /// No key is stored twice.
    pub closed spec fn wf(&self) -> bool {
        forall|i: int, j: int|
            0 <= i < j < self.entries.len() ==> (#[trigger] self.entries@[i]).0@ != (
            #[trigger] self.entries@[j]).0@
    }

    pub fn new() -> (c: Self)
        ensures
            c.wf(),
            c.view() == Map::<(Seq<char>, u32, Seq<char>), Option<Arc<SoftwareCursorSprite>>>::empty(),
    {
        let c = CursorSpriteCache { entries: Vec::new() };
        assert(c.view() =~= Map::empty());
        c
    }

    fn key_eq(a: &SpriteKey, b: &SpriteKey) -> (r: bool)
        ensures
            r == (a@ == b@),
    {
        a.size == b.size && a.theme == b.theme && a.icon == b.icon
    }

    fn find(&self, key: &SpriteKey) -> (r: Option<usize>)
        requires
            self.wf(),
        ensures
            match r {
                Some(i) => i < self.entries.len() && self.entries@[i as int].0@ == key@,
                None => forall|i: int| 0 <= i < self.entries.len() ==> (#[trigger] self.entries@[i]).0@ != key@,
            },
    {
        let mut i: usize = 0;
        while i < self.entries.len()
            invariant
                i <= self.entries.len(),
                forall|j: int| 0 <= j < i ==> (#[trigger] self.entries@[j]).0@ != key@,
            decreases self.entries.len() - i,
        {
            if Self::key_eq(&self.entries[i].0, key) {
                return Some(i);
            }
            i = i + 1;
        }
        None
    }

    /// What the cache holds for `key`, if it holds anything.
    pub fn get(&self, key: &SpriteKey) -> (r: Option<Option<Arc<SoftwareCursorSprite>>>)
        requires
            self.wf(),
        ensures
            match r {
                Some(v) => self.view().contains_key(key@) && self.view()[key@] == v,
                None => !self.view().contains_key(key@),
            },
    {
        match self.find(key) {
            Some(i) => {
                let ghost e = self.entries@[i as int];
                proof {
                    let c = choose|j: int| 0 <= j < self.entries.len() && #[trigger] self.entries@[j].0@ == key@;
                    assert(self.entries@[c].0@ == key@);
                    if c != i {
                        if c < i {
                            assert(self.entries@[c].0@ != self.entries@[i as int].0@);
                        } else {
                            assert(self.entries@[i as int].0@ != self.entries@[c].0@);
                        }
                    }
                    assert(self.view().contains_key(key@));
                }
                Some(share_entry(&self.entries[i].1))
            },
            None => None,
        }
    }

    /// Records what was loaded for `key`.
    pub fn insert(&mut self, key: SpriteKey, value: Option<Arc<SoftwareCursorSprite>>)
        requires
            old(self).wf(),
        ensures
            final(self).wf(),
            final(self).view() == old(self).view().insert(key@, value),
    {
        let ghost old_view = self.view();
        let ghost k = key@;
        match self.find(&key) {
            Some(i) => {
                let ghost before = self.entries@;
                self.entries.set(i, (key, value));
                proof {
                    assert forall|a: int, b: int|
                        0 <= a < b < self.entries.len() implies (#[trigger] self.entries@[a]).0@ != (
                        #[trigger] self.entries@[b]).0@ by {
                        assert(before[a].0@ != before[b].0@);
                    }
                    assert forall|q| #[trigger] self.view().contains_key(q) == old_view.insert(k, value).contains_key(q) by {
                        if q == k {
                            assert(self.entries@[i as int].0@ == q);
                        } else if old_view.contains_key(q) {
                            let j = choose|j: int| 0 <= j < before.len() && #[trigger] before[j].0@ == q;
                            assert(self.entries@[j].0@ == q);
                        } else if self.view().contains_key(q) {
                            let j = choose|j: int| 0 <= j < self.entries.len() && #[trigger] self.entries@[j].0@ == q;
                            assert(before[j].0@ == q);
                        }
                    }
                    assert forall|q| #[trigger] self.view().contains_key(q) implies self.view()[q] == old_view.insert(k, value)[q] by {
                        let c = choose|j: int| 0 <= j < self.entries.len() && #[trigger] self.entries@[j].0@ == q;
                        if q == k {
                            if c != i {
                                if c < i {
                                    assert(self.entries@[c].0@ != self.entries@[i as int].0@);
                                } else {
                                    assert(self.entries@[i as int].0@ != self.entries@[c].0@);
                                }
                            }
                        } else {
                            assert(before[c].0@ == q);
                            let d = choose|j: int| 0 <= j < before.len() && #[trigger] before[j].0@ == q;
                            if c != d {
                                if c < d {
                                    assert(before[c].0@ != before[d].0@);
                                } else {
                                    assert(before[d].0@ != before[c].0@);
                                }
                            }
                        }
                    }
                    assert(self.view() =~= old_view.insert(k, value));
                }
            },
            None => {
                let ghost before = self.entries@;
                self.entries.push((key, value));
                proof {
                    let n = before.len() as int;
                    assert forall|a: int, b: int|
                        0 <= a < b < self.entries.len() implies (#[trigger] self.entries@[a]).0@ != (
                        #[trigger] self.entries@[b]).0@ by {
                        if b < n {
                            assert(before[a].0@ != before[b].0@);
                        } else {
                            assert(before[a].0@ != k);
                        }
                    }
                    assert forall|q| #[trigger] self.view().contains_key(q) == old_view.insert(k, value).contains_key(q) by {
                        if q == k {
                            assert(self.entries@[n].0@ == q);
                        } else if old_view.contains_key(q) {
                            let j = choose|j: int| 0 <= j < before.len() && #[trigger] before[j].0@ == q;
                            assert(self.entries@[j].0@ == q);
                        } else if self.view().contains_key(q) {
                            let j = choose|j: int| 0 <= j < self.entries.len() && #[trigger] self.entries@[j].0@ == q;
                            assert(before[j].0@ == q);
                        }
                    }
                    assert forall|q| #[trigger] self.view().contains_key(q) implies self.view()[q] == old_view.insert(k, value)[q] by {
                        let c = choose|j: int| 0 <= j < self.entries.len() && #[trigger] self.entries@[j].0@ == q;
                        if q == k {
                            if c != n {
                                assert(before[c].0@ != k);
                            }
                        } else {
                            assert(c < n);
                            assert(before[c].0@ == q);
                            let d = choose|j: int| 0 <= j < before.len() && #[trigger] before[j].0@ == q;
                            if c != d {
                                if c < d {
                                    assert(before[c].0@ != before[d].0@);
                                } else {
                                    assert(before[d].0@ != before[c].0@);
                                }
                            }
                        }
                    }
                    assert(self.view() =~= old_view.insert(k, value));
                }
            },
        }
    }
}

/// A lookup gives back what the last insert of the same key stored, and an
/// insert leaves every other key as it was.
pub proof fn lemma_cache_read_after_write(
    view: Map<(Seq<char>, u32, Seq<char>), Option<Arc<SoftwareCursorSprite>>>,
    key: (Seq<char>, u32, Seq<char>),
    other: (Seq<char>, u32, Seq<char>),
    value: Option<Arc<SoftwareCursorSprite>>,
)
    requires
        other != key,
    ensures
        view.insert(key, value).contains_key(key),
        view.insert(key, value)[key] == value,
        view.insert(key, value).contains_key(other) == view.contains_key(other),
        view.contains_key(other) ==> view.insert(key, value)[other] == view[other],
{
}

} // verus!
