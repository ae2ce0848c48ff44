//! Software cursor sprites: frames of an (optionally animated) XCursor image
//! and the choice of the frame shown at a given point of the animation.

use vstd::prelude::*;

verus! {

/// One frame of an animated cursor.
pub struct FrameData {
    /// Pixel bytes of the frame, four bytes per pixel, row-major.
    pub pixels_bgra: Vec<u8>,
    /// How long the frame stays on screen, in milliseconds.
    pub delay_ms: u32,
}

/// A cursor image resolved from a theme, with all frames of one size.
pub struct SoftwareCursorSprite {
    pub width: usize,
    pub height: usize,
    pub hotspot_x: i32,
    pub hotspot_y: i32,
    pub frames: Vec<FrameData>,
}

/// Total delay of the first `n` frames.
pub open spec fn delay_prefix(frames: Seq<FrameData>, n: int) -> int
    decreases n,
{
    if n <= 0 || frames.len() == 0 {
        0
    } else if n > frames.len() {
        delay_prefix(frames, frames.len() as int)
    } else {
        delay_prefix(frames, n - 1) + frames[n - 1].delay_ms
    }
}

/// Length of one animation cycle: the sum of all frame delays.
pub open spec fn cycle_length(frames: Seq<FrameData>) -> int {
    delay_prefix(frames, frames.len() as int)
}

/// Position inside the cycle reached after `elapsed` milliseconds.
pub open spec fn cycle_position(frames: Seq<FrameData>, elapsed: u64) -> int {
    let c = cycle_length(frames);
    (elapsed as int) % (if c < 1 { 1 } else { c })
}

/// Whether the frame `i` is the one covering cycle position `pos`.
pub open spec fn frame_covers(frames: Seq<FrameData>, i: int, pos: int) -> bool {
    0 <= i < frames.len() && delay_prefix(frames, i) <= pos < delay_prefix(frames, i + 1)
}

/// The frame shown after `elapsed` milliseconds: frame 0 for a static cursor
/// (one frame) or a cycle of length 0, otherwise the frame whose time slot
/// in the cycle holds `elapsed` modulo the cycle length.
pub open spec fn frame_index_at(frames: Seq<FrameData>, elapsed: u64) -> int {
    if frames.len() == 1 || cycle_length(frames) == 0 {
        0
    } else {
        choose|i: int| frame_covers(frames, i, cycle_position(frames, elapsed))
    }
}

/// Length of the animation cycle a sprite asks for: 0 for a static sprite.
pub open spec fn animation_cycle(frames: Seq<FrameData>) -> int {
    if frames.len() <= 1 {
        0
    } else {
        cycle_length(frames)
    }
}

pub proof fn lemma_delay_prefix_monotone(frames: Seq<FrameData>, i: int, j: int)
    requires
        0 <= i <= j <= frames.len(),
    ensures
        0 <= delay_prefix(frames, i) <= delay_prefix(frames, j),
    decreases j - i,
{
    if i < j {
        lemma_delay_prefix_monotone(frames, i, j - 1);
    } else {
        lemma_delay_prefix_nonneg(frames, i);
    }
}

proof fn lemma_delay_prefix_nonneg(frames: Seq<FrameData>, i: int)
    requires
        0 <= i <= frames.len(),
    ensures
        0 <= delay_prefix(frames, i),
    decreases i,
{
    if i > 0 {
        lemma_delay_prefix_nonneg(frames, i - 1);
    }
}

/// The frame covering a position is unique, and exists for every position
/// inside a non-empty cycle.
proof fn lemma_frame_cover_unique(frames: Seq<FrameData>, pos: int, i: int, j: int)
    requires
        frame_covers(frames, i, pos),
        frame_covers(frames, j, pos),
    ensures
        i == j,
{
    if i < j {
        lemma_delay_prefix_monotone(frames, i + 1, j);
    } else if j < i {
        lemma_delay_prefix_monotone(frames, j + 1, i);
    }
}

/// The animation is periodic: after a whole cycle the same frame shows
/// again.
pub proof fn lemma_frame_index_periodic(frames: Seq<FrameData>, elapsed: u64)
    requires
        frames.len() >= 1,
        elapsed + cycle_length(frames) <= u64::MAX,
    ensures
        frame_index_at(frames, elapsed) == frame_index_at(
            frames,
            (elapsed + cycle_length(frames)) as u64,
        ),
{
    let c = cycle_length(frames);
    if frames.len() != 1 && c != 0 {
        lemma_delay_prefix_monotone(frames, 0, frames.len() as int);
        let later = (elapsed + c) as u64;
        assert((later as int) % c == (elapsed as int) % c) by {
            vstd::arithmetic::div_mod::lemma_mod_add_multiples_vanish(elapsed as int, c);
        }
        assert(cycle_position(frames, later) == cycle_position(frames, elapsed));
    }
}

/// Every position of a non-empty cycle is covered by exactly one frame, so
/// the frame shown is well defined.
pub proof fn lemma_frame_index_covers(frames: Seq<FrameData>, elapsed: u64)
    requires
        frames.len() > 1,
        cycle_length(frames) > 0,
    ensures
        frame_covers(frames, frame_index_at(frames, elapsed), cycle_position(frames, elapsed)),
{
    let pos = cycle_position(frames, elapsed);
    let c = cycle_length(frames);
    assert(0 <= pos < c);
    lemma_cover_exists(frames, pos, frames.len() as int);
}

/// Each frame is shown for exactly its delay in every cycle: of the
/// moments `0 .. cycle_length` of one cycle, exactly `delay_ms` show frame
/// `i` (so a frame with no delay is never shown).
pub proof fn lemma_frame_shown_for_its_delay(frames: Seq<FrameData>, i: int)
    requires
        frames.len() >= 2,
        0 < cycle_length(frames) <= u64::MAX,
        0 <= i < frames.len(),
    ensures
        Set::new(|p: int| 0 <= p < cycle_length(frames) && frame_index_at(frames, p as u64) == i).finite(),
        Set::new(|p: int| 0 <= p < cycle_length(frames) && frame_index_at(frames, p as u64) == i).len()
            == frames[i].delay_ms,
{
    let c = cycle_length(frames);
    let lo = delay_prefix(frames, i);
    let hi = delay_prefix(frames, i + 1);
    lemma_delay_prefix_monotone(frames, i, i + 1);
    lemma_delay_prefix_monotone(frames, i + 1, frames.len() as int);
    let shown = Set::new(|p: int| 0 <= p < c && frame_index_at(frames, p as u64) == i);
    assert forall|p: int| #[trigger] shown.contains(p) == vstd::set_lib::set_int_range(lo, hi).contains(p) by {
        if 0 <= p < c {
            assert(cycle_position(frames, p as u64) == p) by {
                vstd::arithmetic::div_mod::lemma_small_mod(p as nat, c as nat);
            }
            lemma_cover_exists(frames, p, frames.len() as int);
            let j = frame_index_at(frames, p as u64);
            assert(frame_covers(frames, j, p));
            if frame_covers(frames, i, p) {
                lemma_frame_cover_unique(frames, p, i, j);
            }
        }
    }
    assert(shown =~= vstd::set_lib::set_int_range(lo, hi));
    vstd::set_lib::lemma_int_range(lo, hi);
}

proof fn lemma_cover_exists(frames: Seq<FrameData>, pos: int, n: int)
    requires
        0 <= n <= frames.len(),
        0 <= pos < delay_prefix(frames, n),
    ensures
        exists|i: int| frame_covers(frames, i, pos),
    decreases n,
{
    if n > 0 {
        if pos >= delay_prefix(frames, n - 1) {
            assert(frame_covers(frames, n - 1, pos));
        } else {
            lemma_cover_exists(frames, pos, n - 1);
        }
    }
}

impl SoftwareCursorSprite {
    /// Returns the frame corresponding to the elapsed time (ms).
    /// Single-frame sprites (static cursors) skip the arithmetic.
    pub fn frame_at(&self, elapsed_ms: u64) -> (frame: &FrameData)
        requires
            self.frames.len() >= 1,
            self.frames.len() > 1 ==> cycle_length(self.frames@) <= u64::MAX,
        ensures
            0 <= frame_index_at(self.frames@, elapsed_ms) < self.frames.len(),
            *frame == self.frames@[frame_index_at(self.frames@, elapsed_ms)],
    {
        if self.frames.len() == 1 {
            return &self.frames[0];
        }
        let ghost frames = self.frames@;
        let mut cycle_ms: u64 = 0;
        let mut k: usize = 0;
        while k < self.frames.len()
            invariant
                frames == self.frames@,
                0 <= k <= frames.len(),
                frames.len() > 1,
                cycle_length(frames) <= u64::MAX,
                cycle_ms == delay_prefix(frames, k as int),
            decreases frames.len() - k,
        {
            proof {
                lemma_delay_prefix_monotone(frames, k + 1, frames.len() as int);
            }
            cycle_ms = cycle_ms + self.frames[k].delay_ms as u64;
            k = k + 1;
        }
        let divisor: u64 = if cycle_ms < 1 { 1 } else { cycle_ms };
        let pos = elapsed_ms % divisor;
        let mut acc: u64 = 0;
        let mut i: usize = 0;
        while i < self.frames.len()
            invariant
                frames == self.frames@,
                0 <= i <= frames.len(),
                frames.len() > 1,
                cycle_ms == cycle_length(frames),
                cycle_ms <= u64::MAX,
                pos == cycle_position(frames, elapsed_ms),
                acc == delay_prefix(frames, i as int),
                pos >= acc,
            decreases frames.len() - i,
        {
            proof {
                lemma_delay_prefix_monotone(frames, i + 1, frames.len() as int);
            }
            acc = acc + self.frames[i].delay_ms as u64;
            if pos < acc {
                proof {
                    assert(frame_covers(frames, i as int, pos as int));
                    if cycle_ms != 0 {
                        let j = choose|j: int| frame_covers(frames, j, pos as int);
                        lemma_frame_cover_unique(frames, pos as int, i as int, j);
                    }
                }
                return &self.frames[i];
            }
            i = i + 1;
        }
        proof {
            // Every position of a non-empty cycle is covered, so the walk only
            // falls through when the cycle has length 0.
            assert(cycle_ms == 0);
        }
        &self.frames[0]
    }

    /// Quick access to the first frame, for paths that do not animate.
    pub fn first_frame(&self) -> (frame: &FrameData)
        requires
            self.frames.len() >= 1,
        ensures
            *frame == self.frames@[0],
    {
        &self.frames[0]
    }
}


// ---------------------------------------------------------------------------
// Run-length rows for the software cursor blit
// ---------------------------------------------------------------------------

/// A horizontal run of identical, non-transparent pixels of a sprite frame:
/// `len` pixels from column `x` of row `y`, all with the bytes `b, g, r, a`.
#[derive(Clone, Copy, Debug, PartialEq, Eq, Structural)]
pub struct PixelRun {
    pub x: usize,
    pub y: usize,
    pub len: usize,
    pub b: u8,
    pub g: u8,
    pub r: u8,
    pub a: u8,
}

/// The four bytes of pixel `(x, y)` of a `w`-pixel-wide frame.
pub open spec fn pixel(p: Seq<u8>, w: int, y: int, x: int) -> (u8, u8, u8, u8) {
    let base = (y * w + x) * 4;
    (p[base], p[base + 1], p[base + 2], p[base + 3])
}

/// First column at or after `x` whose pixel differs from the pixel at
/// `start` (or `w` when the row ends first).
pub open spec fn run_end(p: Seq<u8>, w: int, y: int, start: int, x: int) -> int
    decreases w - x,
{
    if x >= w || pixel(p, w, y, x) != pixel(p, w, y, start) {
        x
    } else {
        run_end(p, w, y, start, x + 1)
    }
}

/// Runs of row `y` from column `x` on: transparent pixels are skipped, and
/// each maximal stretch of identical pixels becomes one run.
pub open spec fn row_runs(p: Seq<u8>, w: int, y: int, x: int) -> Seq<PixelRun>
    decreases w - x,
{
    if x >= w || x < 0 {
        Seq::empty()
    } else if pixel(p, w, y, x).3 == 0 {
        row_runs(p, w, y, x + 1)
    } else {
        let e = run_end(p, w, y, x, x + 1);
        let (b, g, r, a) = pixel(p, w, y, x);
        proof {
            lemma_run_end_bounds(p, w, y, x, x + 1);
        }
        seq![PixelRun { x: x as usize, y: y as usize, len: (e - x) as usize, b, g, r, a }]
            + row_runs(p, w, y, e)
    }
}

/// Runs of rows `y..h`, row by row.
pub open spec fn frame_runs(p: Seq<u8>, w: int, h: int, y: int) -> Seq<PixelRun>
    decreases h - y,
{
    if y >= h || y < 0 {
        Seq::empty()
    } else {
        row_runs(p, w, y, 0) + frame_runs(p, w, h, y + 1)
    }
}

proof fn lemma_pixel_index(w: int, h: int, y: int, x: int)
    requires
        0 <= y < h,
        0 <= x < w,
    ensures
        0 <= y * w,
        y * w + x < w * h,
        0 <= (y * w + x) * 4,
        (y * w + x) * 4 + 3 < w * h * 4,
{
    assert(y * w + x < w * h) by (nonlinear_arith)
        requires
            0 <= y < h,
            0 <= x < w,
    ;
    assert(0 <= y * w) by (nonlinear_arith)
        requires
            0 <= y,
            0 <= x < w,
    ;
}

pub proof fn lemma_run_end_bounds(p: Seq<u8>, w: int, y: int, start: int, x: int)
    requires
        x <= w,
    ensures
        x <= run_end(p, w, y, start, x) <= w,
    decreases w - x,
{
    if x < w && pixel(p, w, y, x) == pixel(p, w, y, start) {
        lemma_run_end_bounds(p, w, y, start, x + 1);
    }
}

/// `run` lies in row `y`, within columns `lo..w`, is not transparent, and
/// every pixel it covers has exactly its four bytes.
pub open spec fn run_matches_row(p: Seq<u8>, w: int, y: int, lo: int, run: PixelRun) -> bool {
    &&& run.y == y
    &&& lo <= run.x
    &&& run.len >= 1
    &&& run.x + run.len <= w
    &&& run.a != 0
    &&& forall|x: int| run.x <= x < run.x + run.len ==> #[trigger] pixel(p, w, y, x) == (run.b, run.g, run.r, run.a)
}

proof fn lemma_run_end_same(p: Seq<u8>, w: int, y: int, start: int, x: int)
    requires
        x <= w,
    ensures
        forall|k: int| x <= k < run_end(p, w, y, start, x) ==> #[trigger] pixel(p, w, y, k) == pixel(p, w, y, start),
    decreases w - x,
{
    if x < w && pixel(p, w, y, x) == pixel(p, w, y, start) {
        lemma_run_end_same(p, w, y, start, x + 1);
    }
}

proof fn lemma_row_runs_match(p: Seq<u8>, w: int, y: int, x0: int)
    requires
        0 <= x0,
        w <= usize::MAX,
        0 <= y <= usize::MAX,
    ensures
        forall|k: int| 0 <= k < row_runs(p, w, y, x0).len() ==> run_matches_row(p, w, y, x0, #[trigger] row_runs(p, w, y, x0)[k]),
    decreases w - x0,
{
    if x0 < w {
        if pixel(p, w, y, x0).3 == 0 {
            lemma_row_runs_match(p, w, y, x0 + 1);
            assert(row_runs(p, w, y, x0) == row_runs(p, w, y, x0 + 1));
            assert forall|k: int| 0 <= k < row_runs(p, w, y, x0).len() implies run_matches_row(
                p,
                w,
                y,
                x0,
                #[trigger] row_runs(p, w, y, x0)[k],
            ) by {
                assert(run_matches_row(p, w, y, x0 + 1, row_runs(p, w, y, x0 + 1)[k]));
            }
        } else {
            let e = run_end(p, w, y, x0, x0 + 1);
            lemma_run_end_bounds(p, w, y, x0, x0 + 1);
            lemma_run_end_same(p, w, y, x0, x0 + 1);
            lemma_row_runs_match(p, w, y, e);
            let rest = row_runs(p, w, y, e);
            let (b, g, r, a) = pixel(p, w, y, x0);
            let first = PixelRun { x: x0 as usize, y: y as usize, len: (e - x0) as usize, b, g, r, a };
            assert(row_runs(p, w, y, x0) == seq![first] + rest);
            assert(run_matches_row(p, w, y, x0, first));
            assert forall|k: int| 0 <= k < row_runs(p, w, y, x0).len() implies run_matches_row(
                p,
                w,
                y,
                x0,
                #[trigger] row_runs(p, w, y, x0)[k],
            ) by {
                if k > 0 {
                    assert(row_runs(p, w, y, x0)[k] == rest[k - 1]);
                    assert(run_matches_row(p, w, y, e, rest[k - 1]));
                }
            }
        }
    }
}

proof fn lemma_frame_runs_match(p: Seq<u8>, w: int, h: int, y0: int)
    requires
        0 <= y0,
        w <= usize::MAX,
        h <= usize::MAX,
    ensures
        forall|k: int| 0 <= k < frame_runs(p, w, h, y0).len() ==> {
            let run = #[trigger] frame_runs(p, w, h, y0)[k];
            y0 <= run.y < h && run_matches_row(p, w, run.y as int, 0, run)
        },
    decreases h - y0,
{
    if y0 < h {
        lemma_row_runs_match(p, w, y0, 0);
        lemma_frame_runs_match(p, w, h, y0 + 1);
        let row = row_runs(p, w, y0, 0);
        let rest = frame_runs(p, w, h, y0 + 1);
        assert(frame_runs(p, w, h, y0) == row + rest);
        assert forall|k: int| 0 <= k < frame_runs(p, w, h, y0).len() implies {
            let run = #[trigger] frame_runs(p, w, h, y0)[k];
            y0 <= run.y < h && run_matches_row(p, w, run.y as int, 0, run)
        } by {
            if k < row.len() {
                assert(frame_runs(p, w, h, y0)[k] == row[k]);
                assert(run_matches_row(p, w, y0, 0, row[k]));
            } else {
                assert(frame_runs(p, w, h, y0)[k] == rest[k - row.len()]);
            }
        }
    }
}

/// Every run drawn for a frame lies inside the frame, is not transparent,
/// and covers only pixels whose four bytes (blue, green, red and alpha,
/// the bytes at `(y * w + x) * 4 ..`) are exactly the run's: pixels that
/// differ in any byte, alpha included, are never drawn as one run.
pub proof fn lemma_runs_match_pixels(p: Seq<u8>, w: usize, h: usize)
    ensures
        forall|k: int| 0 <= k < frame_runs(p, w as int, h as int, 0).len() ==> {
            let run = #[trigger] frame_runs(p, w as int, h as int, 0)[k];
            &&& run.y < h
            &&& run.len >= 1
            &&& run.x + run.len <= w
            &&& run.a != 0
            &&& forall|x: int|
                run.x <= x < run.x + run.len ==> #[trigger] pixel(p, w as int, run.y as int, x) == (
                    run.b,
                    run.g,
                    run.r,
                    run.a,
                )
        },
{
    lemma_frame_runs_match(p, w as int, h as int, 0);
}

/// The runs to draw for one frame of `w` by `h` pixels: each row scanned
/// left to right, transparent pixels skipped, identical neighbours merged
/// into one run.
pub fn frame_pixel_runs(pixels: &Vec<u8>, w: usize, h: usize) -> (runs: Vec<PixelRun>)
    requires
        w * h * 4 <= pixels.len(),
    ensures
        runs@ == frame_runs(pixels@, w as int, h as int, 0),
{
    let ghost p = pixels@;
    let ghost total = frame_runs(p, w as int, h as int, 0);
    let mut out: Vec<PixelRun> = Vec::new();
    let mut y: usize = 0;
    assert(w * h * 4 <= usize::MAX);
    while y < h
        invariant
            p == pixels@,
            w * h * 4 <= p.len(),
            w * h * 4 <= usize::MAX,
            y <= h,
            out@ + frame_runs(p, w as int, h as int, y as int) == total,
        decreases h - y,
    {
        let mut x: usize = 0;
        assert(frame_runs(p, w as int, h as int, y as int) == row_runs(p, w as int, y as int, 0)
            + frame_runs(p, w as int, h as int, y + 1));
        assert(out@ + row_runs(p, w as int, y as int, 0) + frame_runs(p, w as int, h as int, y + 1)
            =~= out@ + frame_runs(p, w as int, h as int, y as int));
        while x < w
            invariant
                p == pixels@,
                w * h * 4 <= p.len(),
                w * h * 4 <= usize::MAX,
                y < h,
                x <= w,
                out@ + row_runs(p, w as int, y as int, x as int) + frame_runs(p, w as int, h as int, y + 1)
                    == total,
            decreases w - x,
        {
            proof {
                lemma_pixel_index(w as int, h as int, y as int, x as int);
            }
            let base = (y * w + x) * 4;
            let a = pixels[base + 3];
            if a == 0 {
                x = x + 1;
            } else {
                let b = pixels[base];
                let g = pixels[base + 1];
                let r = pixels[base + 2];
                assert(pixel(p, w as int, y as int, x as int) == (b, g, r, a));
                let mut run_end_x = x + 1;
                while run_end_x < w
                    invariant
                        p == pixels@,
                        w * h * 4 <= p.len(),
                        w * h * 4 <= usize::MAX,
                        y < h,
                        x < run_end_x <= w,
                        pixel(p, w as int, y as int, x as int) == (b, g, r, a),
                        run_end(p, w as int, y as int, x as int, x + 1) == run_end(
                            p,
                            w as int,
                            y as int,
                            x as int,
                            run_end_x as int,
                        ),
                    ensures
                        x < run_end_x <= w,
                        run_end(p, w as int, y as int, x as int, x + 1) == run_end_x,
                    decreases w - run_end_x,
                {
                    proof {
                        lemma_pixel_index(w as int, h as int, y as int, run_end_x as int);
                    }
                    let i = (y * w + run_end_x) * 4;
                    if pixels[i] != b || pixels[i + 1] != g || pixels[i + 2] != r || pixels[i + 3] != a {
                        assert(pixel(p, w as int, y as int, run_end_x as int) != pixel(
                            p,
                            w as int,
                            y as int,
                            x as int,
                        ));
                        break;
                    }
                    run_end_x = run_end_x + 1;
                }
                proof {
                    lemma_run_end_bounds(p, w as int, y as int, x as int, x + 1);
                }
                let run = PixelRun { x, y, len: run_end_x - x, b, g, r, a };
                let ghost before = out@;
                out.push(run);
                assert(row_runs(p, w as int, y as int, x as int) == seq![run] + row_runs(
                    p,
                    w as int,
                    y as int,
                    run_end_x as int,
                ));
                assert(out@ + row_runs(p, w as int, y as int, run_end_x as int) + frame_runs(
                    p,
                    w as int,
                    h as int,
                    y + 1,
                ) =~= before + row_runs(p, w as int, y as int, x as int) + frame_runs(
                    p,
                    w as int,
                    h as int,
                    y + 1,
                ));
                x = run_end_x;
            }
        }
        assert(row_runs(p, w as int, y as int, x as int) =~= Seq::<PixelRun>::empty());
        assert(out@ + row_runs(p, w as int, y as int, x as int) + frame_runs(p, w as int, h as int, y + 1)
            =~= out@ + frame_runs(p, w as int, h as int, y + 1));
        y = y + 1;
    }
    assert(frame_runs(p, w as int, h as int, y as int) =~= Seq::<PixelRun>::empty());
    assert(out@ + frame_runs(p, w as int, h as int, y as int) =~= out@);
    out
}

/// The runs to draw for the frame of `sprite` shown after `elapsed_ms`.
pub fn cursor_sprite_runs(sprite: &SoftwareCursorSprite, elapsed_ms: u64) -> (runs: Vec<PixelRun>)
    requires
        sprite.frames.len() >= 1,
        sprite.frames.len() > 1 ==> cycle_length(sprite.frames@) <= u64::MAX,
        sprite.width * sprite.height * 4 <= sprite.frames@[frame_index_at(sprite.frames@, elapsed_ms)].pixels_bgra.len(),
    ensures
        runs@ == frame_runs(
            sprite.frames@[frame_index_at(sprite.frames@, elapsed_ms)].pixels_bgra@,
            sprite.width as int,
            sprite.height as int,
            0,
        ),
{
    let frame = sprite.frame_at(elapsed_ms);
    frame_pixel_runs(&frame.pixels_bgra, sprite.width, sprite.height)
}

} // verus!
