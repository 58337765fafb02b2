//! The rasteriser: particles to pixels, and the dilation pass that follows.

use crate::frame::{
    alpha_at, alpha_of, blank, byte_len, channel, clear, column, in_frame, lemma_offset,
    lemma_pixel_of, offset, put_pixel, row, tone,
};
use crate::particles::{Particle, ParticleSystem};
use crate::scalar::Scalar;
use vstd::prelude::*;

verus! {

/// Colour bytes of a drawn particle.
pub const WHITE: u8 = 0xFF;

/// Alpha byte of an opaque pixel.
pub const OPAQUE: u8 = 0xFF;

/// Colour and alpha bytes of a pixel that the dilation pass fills in.
pub const GLOW: u8 = 0xCC;

/// How a particle is drawn.
#[derive(Clone, Copy, Debug, PartialEq, Eq)]
pub enum DrawMode {
    /// A disc of the given radius round the particle's pixel, as opaque as the
    /// particle's lifetime says. A negative radius draws nothing.
    Circle { radius: i16 },
    /// One opaque pixel.
    Point,
}

/// The pixel that holds a particle: its position rounded toward zero.
pub open spec fn center(p: Particle) -> (int, int) {
    (p.position.x.truncated(), p.position.y.truncated())
}

/// Whether a particle whose pixel is `(cx, cy)` colours pixel `(x, y)`.
pub open spec fn covers(mode: DrawMode, cx: int, cy: int, x: int, y: int) -> bool {
    match mode {
        DrawMode::Point => x == cx && y == cy,
        DrawMode::Circle { radius } => radius >= 0 && (x - cx) * (x - cx) + (y - cy) * (y - cy)
            <= radius * radius,
    }
}

/// The alpha byte that a particle leaves on the pixels it colours.
pub open spec fn ink(mode: DrawMode, p: Particle) -> u8 {
    match mode {
        DrawMode::Point => OPAQUE,
        DrawMode::Circle { radius } => p.lifetime.opacity() as u8,
    }
}

/// The buffer after a particle at pixel `(cx, cy)` was drawn over it: the
/// pixels it covers are white at `alpha`, the others are as before.
pub open spec fn stamped(frame: Seq<u8>, width: int, mode: DrawMode, cx: int, cy: int, alpha: u8) -> Seq<
    u8,
> {
    Seq::new(
        frame.len(),
        |k: int|
            if covers(mode, cx, cy, column(width, k), row(width, k)) {
                tone(channel(k), WHITE, alpha)
            } else {
                frame[k]
            },
    )
}

/// Whether the frame has a pixel `(x, y)` and that pixel is not fully
/// transparent.
pub open spec fn lit(frame: Seq<u8>, width: int, height: int, x: int, y: int) -> bool {
    in_frame(width, height, x, y) && alpha_at(frame, width, x, y) > 0
}

/// Whether one of the eight pixels round `(x, y)` is lit.
pub open spec fn has_lit_neighbor(frame: Seq<u8>, width: int, height: int, x: int, y: int) -> bool {
    ||| lit(frame, width, height, x - 1, y)
    ||| lit(frame, width, height, x + 1, y)
    ||| lit(frame, width, height, x, y - 1)
    ||| lit(frame, width, height, x, y + 1)
    ||| lit(frame, width, height, x - 1, y - 1)
    ||| lit(frame, width, height, x + 1, y - 1)
    ||| lit(frame, width, height, x - 1, y + 1)
    ||| lit(frame, width, height, x + 1, y + 1)
}

/// Whether `(x, y)` lies in the rectangle `(min_x, min_y, max_x, max_y)`,
/// which holds all four of its bounds. A rectangle whose lower bound lies
/// beyond its upper one holds nothing.
pub open spec fn in_rect(rect: (usize, usize, usize, usize), x: int, y: int) -> bool {
    rect.0 <= x <= rect.2 && rect.1 <= y <= rect.3
}

/// Whether the dilation pass fills in pixel `(x, y)`: the pixel lies in the
/// rectangle, it is fully transparent, and a pixel next to it is lit.
pub open spec fn dilates(
    frame: Seq<u8>,
    width: int,
    height: int,
    rect: (usize, usize, usize, usize),
    x: int,
    y: int,
) -> bool {
    &&& in_rect(rect, x, y)
    &&& in_frame(width, height, x, y)
    &&& alpha_at(frame, width, x, y) == 0
    &&& has_lit_neighbor(frame, width, height, x, y)
}

/// The buffer after the dilation pass over `rect`. Every pixel is judged by
/// the buffer as it was before the pass.
pub open spec fn dilated(
    frame: Seq<u8>,
    width: int,
    height: int,
    rect: (usize, usize, usize, usize),
) -> Seq<u8> {
    Seq::new(
        frame.len(),
        |k: int|
            if dilates(frame, width, height, rect, column(width, k), row(width, k)) {
                GLOW
            } else {
                frame[k]
            },
    )
}

/// The alpha byte that the particles `ps`, drawn in order, leave on pixel
/// `(x, y)`: that of the last particle that covers the pixel, if any does.
pub open spec fn painted(mode: DrawMode, ps: Seq<Particle>, x: int, y: int) -> Option<u8>
    decreases ps.len(),
{
    if ps.len() == 0 {
        None
    } else if covers(mode, center(ps.last()).0, center(ps.last()).1, x, y) {
        Some(ink(mode, ps.last()))
    } else {
        painted(mode, ps.drop_last(), x, y)
    }
}

/// The particles `ps` drawn in order on a cleared buffer of `width` by
/// `height` pixels: a pixel that a particle covers is white, with the alpha of
/// the last particle that covers it; every other pixel is black and transparent.
pub open spec fn rasterized(mode: DrawMode, ps: Seq<Particle>, width: int, height: int) -> Seq<u8> {
    Seq::new(
        byte_len(width, height) as nat,
        |k: int|
            match painted(mode, ps, column(width, k), row(width, k)) {
                Some(alpha) => tone(channel(k), WHITE, alpha),
                None => 0u8,
            },
    )
}

/// The rectangle, widened to hold pixel `(x, y)` if the frame has that pixel.
pub open spec fn widened(
    rect: (usize, usize, usize, usize),
    width: usize,
    height: usize,
    x: int,
    y: int,
) -> (usize, usize, usize, usize) {
    if in_frame(width as int, height as int, x, y) {
        (
            if x < rect.0 {
                x as usize
            } else {
                rect.0
            },
            if y < rect.1 {
                y as usize
            } else {
                rect.1
            },
            if x > rect.2 {
                x as usize
            } else {
                rect.2
            },
            if y > rect.3 {
                y as usize
            } else {
                rect.3
            },
        )
    } else {
        rect
    }
}

/// The rectangle `(min_x, min_y, max_x, max_y)` spanned by the pixels of those
/// particles that lie within the frame. It starts from `(width, height, 0, 0)`,
/// which is what it is when no particle lies within the frame.
pub open spec fn span(ps: Seq<Particle>, width: usize, height: usize) -> (usize, usize, usize, usize)
    decreases ps.len(),
{
    if ps.len() == 0 {
        (width, height, 0, 0)
    } else {
        widened(
            span(ps.drop_last(), width, height),
            width,
            height,
            center(ps.last()).0,
            center(ps.last()).1,
        )
    }
}

/// What `draw` leaves in a buffer of `width` by `height` pixels: the particles
/// on a cleared buffer, dilated within the rectangle that they span.
pub open spec fn rendered(mode: DrawMode, ps: Seq<Particle>, width: usize, height: usize) -> Seq<u8> {
    dilated(
        rasterized(mode, ps, width as int, height as int),
        width as int,
        height as int,
        span(ps, width, height),
    )
}

/// Draws particles into a pixel buffer of a fixed size and softens the result.
pub struct Renderer {
    width: usize,
    height: usize,
    mode: DrawMode,
    /// The frame as it was before the dilation pass touched it.
    temp_buffer: Vec<u8>,
    /// A second scratch buffer of the same size.
    blur_buffer: Vec<u8>,
    /// `(min_x, min_y, max_x, max_y)` of the last frame drawn.
    dirty_rect: Option<(usize, usize, usize, usize)>,
}

impl Renderer {
    #[verifier::type_invariant]
    spec fn well_formed(self) -> bool {
        &&& self.temp_buffer@.len() == byte_len(self.width as int, self.height as int)
        &&& self.blur_buffer@.len() == byte_len(self.width as int, self.height as int)
    }

    /// Width of the buffers that this renderer draws into, in pixels.
    pub closed spec fn spec_width(&self) -> usize {
        self.width
    }

    /// Height of the buffers that this renderer draws into, in pixels.
    pub closed spec fn spec_height(&self) -> usize {
        self.height
    }

    /// How particles are drawn.
    pub closed spec fn spec_mode(&self) -> DrawMode {
        self.mode
    }

    /// The rectangle `(min_x, min_y, max_x, max_y)` that the particles of the
    /// last frame spanned, if a frame was drawn.
    pub closed spec fn spec_dirty_rect(&self) -> Option<(usize, usize, usize, usize)> {
        self.dirty_rect
    }

    /// The two scratch buffers: first the copy of the frame that the last
    /// dilation pass judged by, then the spare one.
    pub closed spec fn scratch(&self) -> (Seq<u8>, Seq<u8>) {
        (self.temp_buffer@, self.blur_buffer@)
    }

    /// Number of bytes of the buffers that this renderer draws into.
    pub open spec fn frame_len(&self) -> int {
        byte_len(self.width() as int, self.height() as int)
    }

    /// A renderer for buffers of `width` by `height` pixels that draws each
    /// particle as one point. No frame was drawn yet, and both scratch buffers
    /// have the size of a frame and hold zeros.
    pub fn new(width: usize, height: usize) -> (r: Self)
        requires
            byte_len(width as int, height as int) <= usize::MAX,
        ensures
            r.width() == width,
            r.height() == height,
            r.mode() == DrawMode::Point,
            r.dirty_rect() is None,
            r.scratch().0 == blank(byte_len(width as int, height as int)),
            r.scratch().1 == blank(byte_len(width as int, height as int)),
    {
        Self::with_mode(width, height, DrawMode::Point)
    }

    /// A renderer for buffers of `width` by `height` pixels that draws each
    /// particle as `mode` says. No frame was drawn yet, and both scratch buffers
    /// have the size of a frame and hold zeros.
    pub fn with_mode(width: usize, height: usize, mode: DrawMode) -> (r: Self)
        requires
            byte_len(width as int, height as int) <= usize::MAX,
        ensures
            r.width() == width,
            r.height() == height,
            r.mode() == mode,
            r.dirty_rect() is None,
            r.scratch().0 == blank(byte_len(width as int, height as int)),
            r.scratch().1 == blank(byte_len(width as int, height as int)),
    {
        assert(0 <= width * height <= width * height * 4) by (nonlinear_arith);
        let len: usize = width * height * 4;
        let r = Self {
            width,
            height,
            mode,
            temp_buffer: vec![0u8; len],
            blur_buffer: vec![0u8; len],
            dirty_rect: None,
        };
        assert(r.temp_buffer@ =~= blank(len as int));
        assert(r.blur_buffer@ =~= blank(len as int));
        r
    }

    /// Sets the pixel `(x, y)` to opaque white if the frame has such a pixel.
    pub fn draw_point_fast(&self, frame: &mut [u8], x: i64, y: i64)
        requires
            old(frame)@.len() == self.frame_len(),
        ensures
            final(frame)@ == stamped(
                old(frame)@,
                self.width() as int,
                DrawMode::Point,
                x as int,
                y as int,
                OPAQUE,
            ),
    {
        let ghost w = self.width as int;
        let ghost h = self.height as int;
        let ghost target = stamped(old(frame)@, w, DrawMode::Point, x as int, y as int, OPAQUE);
        if 0 <= x && 0 <= y && (x as u64) < (self.width as u64) && (y as u64) < (self.height as u64) {
            put_pixel(frame, self.width, self.height, x as usize, y as usize, WHITE, OPAQUE);
            assert(frame@ =~= target);
        } else {
            assert forall|k: int| 0 <= k < frame@.len() implies frame@[k] == target[k] by {
                lemma_pixel_of(w, h, k);
            }
            assert(frame@ =~= target);
        }
    }

    /// Draws a disc of `radius` pixels round `(center_x, center_y)`, white and
    /// as opaque as `lifetime` says. Pixels of the disc that the frame does not
    /// have are left out; a negative radius draws nothing.
    pub fn draw_circle(
        &self,
        frame: &mut [u8],
        center_x: i64,
        center_y: i64,
        radius: i16,
        lifetime: Scalar,
    )
        requires
            old(frame)@.len() == self.frame_len(),
        ensures
            final(frame)@ == stamped(
                old(frame)@,
                self.width() as int,
                DrawMode::Circle { radius },
                center_x as int,
                center_y as int,
                lifetime.opacity() as u8,
            ),
    {
        let ghost w = self.width as int;
        let ghost h = self.height as int;
        let ghost mode = DrawMode::Circle { radius };
        let alpha: u8 = lifetime.to_opacity();
        let ghost target = stamped(old(frame)@, w, mode, center_x as int, center_y as int, alpha);
        let cx: i128 = center_x as i128;
        let cy: i128 = center_y as i128;
        let r: i128 = radius as i128;
        let min_x: i128 = if cx - r > 0 { cx - r } else { 0 };
        let max_x: i128 = if cx + r < self.width as i128 - 1 { cx + r } else { self.width as i128 - 1 };
        let min_y: i128 = if cy - r > 0 { cy - r } else { 0 };
        let max_y: i128 = if cy + r < self.height as i128 - 1 { cy + r } else { self.height as i128 - 1 };
        proof {
            assert forall|x: int, y: int| in_frame(w, h, x, y) && #[trigger] covers(mode, cx as int, cy as int, x, y)
                implies min_x <= x <= max_x && min_y <= y <= max_y by {
                lemma_disc_in_box(x - cx, y - cy, r as int);
            }
        }
        if radius < 0 || min_x > max_x || min_y > max_y {
            proof {
                assert forall|k: int| 0 <= k < frame@.len() implies frame@[k] == target[k] by {
                    lemma_pixel_of(w, h, k);
                }
                assert(frame@ =~= target);
            }
            return ;
        }
        let first_x: usize = min_x as usize;
        let last_x: usize = max_x as usize;
        let last_y: usize = max_y as usize;
        let mut y: usize = min_y as usize;
        while y <= last_y
            invariant
                min_y <= y <= last_y + 1,
                last_y == max_y,
                last_y < self.height,
                first_x == min_x,
                last_x == max_x,
                first_x <= last_x < self.width,
                0 <= r <= i16::MAX,
                cx - r <= min_x,
                max_x <= cx + r,
                cy - r <= min_y,
                max_y <= cy + r,
                w == self.width,
                h == self.height,
                mode == (DrawMode::Circle { radius }),
                r == radius,
                cx == center_x,
                cy == center_y,
                frame@.len() == old(frame)@.len(),
                frame@.len() == byte_len(w, h),
                forall|x2: int, y2: int|
                    in_frame(w, h, x2, y2) && #[trigger] covers(mode, cx as int, cy as int, x2, y2)
                        ==> min_x <= x2 <= max_x && min_y <= y2 <= max_y,
                forall|k: int|
                    0 <= k < frame@.len() ==> frame@[k] == (if row(w, k) < y && covers(
                        mode,
                        cx as int,
                        cy as int,
                        column(w, k),
                        row(w, k),
                    ) {
                        tone(channel(k), WHITE, alpha)
                    } else {
                        old(frame)@[k]
                    }),
            decreases last_y + 1 - y,
        {
            let mut x: usize = first_x;
            while x <= last_x
                invariant
                    min_y <= y <= last_y,
                    last_y < self.height,
                    first_x <= x <= last_x + 1,
                    first_x == min_x,
                    last_x == max_x,
                    last_x < self.width,
                    0 <= r <= i16::MAX,
                    cx - r <= min_x,
                    max_x <= cx + r,
                    cy - r <= min_y,
                    max_y <= cy + r,
                    last_y == max_y,
                    w == self.width,
                    h == self.height,
                    mode == (DrawMode::Circle { radius }),
                    r == radius,
                    cx == center_x,
                    cy == center_y,
                    frame@.len() == old(frame)@.len(),
                    frame@.len() == byte_len(w, h),
                    forall|x2: int, y2: int|
                        in_frame(w, h, x2, y2) && #[trigger] covers(mode, cx as int, cy as int, x2, y2)
                            ==> min_x <= x2 <= max_x && min_y <= y2 <= max_y,
                    forall|k: int|
                        0 <= k < frame@.len() ==> frame@[k] == (if (row(w, k) < y || (row(w, k) == y
                            && column(w, k) < x)) && covers(
                            mode,
                            cx as int,
                            cy as int,
                            column(w, k),
                            row(w, k),
                        ) {
                            tone(channel(k), WHITE, alpha)
                        } else {
                            old(frame)@[k]
                        }),
                decreases last_x + 1 - x,
            {
                let dx: i128 = x as i128 - cx;
                let dy: i128 = y as i128 - cy;
                proof {
                    lemma_square_bound(dx as int, r as int);
                    lemma_square_bound(dy as int, r as int);
                    lemma_square_bound(r as int, i16::MAX as int);
                }
                let ghost before = frame@;
                if dx * dx + dy * dy <= r * r {
                    put_pixel(frame, self.width, self.height, x, y, WHITE, alpha);
                }
                proof {
                    assert forall|k: int| 0 <= k < frame@.len() implies frame@[k] == (if (row(w, k)
                        < y || (row(w, k) == y && column(w, k) < x + 1)) && covers(
                        mode,
                        cx as int,
                        cy as int,
                        column(w, k),
                        row(w, k),
                    ) {
                        tone(channel(k), WHITE, alpha)
                    } else {
                        old(frame)@[k]
                    }) by {
                        lemma_pixel_of(w, h, k);
                    }
                }
                x += 1;
            }
            proof {
                assert forall|k: int| 0 <= k < frame@.len() implies frame@[k] == (if row(w, k) < y
                    + 1 && covers(mode, cx as int, cy as int, column(w, k), row(w, k)) {
                    tone(channel(k), WHITE, alpha)
                } else {
                    old(frame)@[k]
                }) by {
                    lemma_pixel_of(w, h, k);
                }
            }
            y += 1;
        }
        proof {
            assert forall|k: int| 0 <= k < frame@.len() implies frame@[k] == target[k] by {
                lemma_pixel_of(w, h, k);
            }
            assert(frame@ =~= target);
        }
    }

    /// Keeps a copy of the frame, for a pass that must judge every pixel by the
    /// frame as it was.
    fn snapshot(&mut self, frame: &[u8])
        requires
            frame@.len() == byte_len(old(self).width as int, old(self).height as int),
        ensures
            final(self).temp_buffer@ == frame@,
            final(self).blur_buffer@ == old(self).blur_buffer@,
            final(self).width == old(self).width,
            final(self).height == old(self).height,
            final(self).mode == old(self).mode,
            final(self).dirty_rect == old(self).dirty_rect,
    {
        proof {
            use_type_invariant(&*self);
        }
        let n: usize = frame.len();
        let mut i: usize = 0;
        while i < n
            invariant
                i <= n,
                frame@.len() == n,
                self.temp_buffer@.len() == n,
                self.blur_buffer@.len() == n,
                n == byte_len(self.width as int, self.height as int),
                self.width == old(self).width,
                self.height == old(self).height,
                self.mode == old(self).mode,
                self.dirty_rect == old(self).dirty_rect,
                self.blur_buffer@ == old(self).blur_buffer@,
                forall|j: int| 0 <= j < i ==> self.temp_buffer@[j] == frame@[j],
            decreases n - i,
        {
            self.temp_buffer[i] = frame[i];
            i += 1;
        }
        assert(self.temp_buffer@ =~= frame@);
    }

    /// Grows the lit pixels of the frame by one pixel within the rectangle of
    /// the last frame drawn, its bounds included: a fully transparent pixel of
    /// the rectangle that has a lit pixel next to it becomes a dim grey. Every
    /// other pixel stays as it is. Before any frame was drawn, the whole frame
    /// stays. The first scratch buffer is left holding the frame as it was
    /// before the pass; neither buffer changes its size.
    pub fn dilation(&mut self, frame: &mut [u8])
        requires
            old(self).dirty_rect() is Some ==> old(frame)@.len() == old(self).frame_len(),
        ensures
            final(frame)@ == (match old(self).dirty_rect() {
                Some(rect) => dilated(
                    old(frame)@,
                    old(self).width() as int,
                    old(self).height() as int,
                    rect,
                ),
                None => old(frame)@,
            }),
            final(self).scratch().0 == (match old(self).dirty_rect() {
                Some(rect) => old(frame)@,
                None => old(self).scratch().0,
            }),
            final(self).scratch().1 == old(self).scratch().1,
            final(self).scratch().0.len() == old(self).frame_len(),
            final(self).scratch().1.len() == old(self).frame_len(),
            final(self).width() == old(self).width(),
            final(self).height() == old(self).height(),
            final(self).mode() == old(self).mode(),
            final(self).dirty_rect() == old(self).dirty_rect(),
    {
        proof {
            use_type_invariant(&*self);
        }
        let rect: (usize, usize, usize, usize) = match self.dirty_rect {
            Some(rect) => rect,
            None => {
                return ;
            },
        };
        let (min_x, min_y, max_x, max_y) = rect;
        let width: usize = self.width;
        let height: usize = self.height;
        let ghost w = width as int;
        let ghost h = height as int;
        self.snapshot(frame);
        let src: &[u8] = self.temp_buffer.as_slice();
        let ghost target = dilated(src@, w, h, rect);
        let mut y: usize = min_y;
        while y <= max_y && y < height
            invariant
                rect == (min_x, min_y, max_x, max_y),
                min_y <= y,
                w == width,
                h == height,
                src@ == old(frame)@,
                src@.len() == byte_len(w, h),
                frame@.len() == byte_len(w, h),
                forall|k: int|
                    0 <= k < frame@.len() ==> frame@[k] == (if row(w, k) < y && dilates(
                        src@,
                        w,
                        h,
                        rect,
                        column(w, k),
                        row(w, k),
                    ) {
                        GLOW
                    } else {
                        src@[k]
                    }),
            decreases height - y,
        {
            let mut x: usize = min_x;
            while x <= max_x && x < width
                invariant
                    rect == (min_x, min_y, max_x, max_y),
                    min_y <= y <= max_y,
                    y < height,
                    min_x <= x,
                    w == width,
                    h == height,
                    src@ == old(frame)@,
                    src@.len() == byte_len(w, h),
                    frame@.len() == byte_len(w, h),
                    forall|k: int|
                        0 <= k < frame@.len() ==> frame@[k] == (if (row(w, k) < y || (row(w, k) == y
                            && column(w, k) < x)) && dilates(
                            src@,
                            w,
                            h,
                            rect,
                            column(w, k),
                            row(w, k),
                        ) {
                            GLOW
                        } else {
                            src@[k]
                        }),
                decreases width - x,
            {
                if alpha_of(src, width, height, x, y) == 0 {
                    let has_neighbor: bool = (x > 0 && alpha_of(src, width, height, x - 1, y) > 0)
                        || (x + 1 < width && alpha_of(src, width, height, x + 1, y) > 0) || (y > 0
                        && alpha_of(src, width, height, x, y - 1) > 0) || (y + 1 < height
                        && alpha_of(src, width, height, x, y + 1) > 0) || (x > 0 && y > 0
                        && alpha_of(src, width, height, x - 1, y - 1) > 0) || (x + 1 < width && y
                        > 0 && alpha_of(src, width, height, x + 1, y - 1) > 0) || (x > 0 && y + 1
                        < height && alpha_of(src, width, height, x - 1, y + 1) > 0) || (x + 1
                        < width && y + 1 < height && alpha_of(src, width, height, x + 1, y + 1)
                        > 0);
                    assert(has_neighbor == has_lit_neighbor(src@, w, h, x as int, y as int));
                    if has_neighbor {
                        put_pixel(frame, width, height, x, y, GLOW, GLOW);
                    }
                }
                proof {
                    assert forall|k: int| 0 <= k < frame@.len() implies frame@[k] == (if (row(w, k)
                        < y || (row(w, k) == y && column(w, k) < x + 1)) && dilates(
                        src@,
                        w,
                        h,
                        rect,
                        column(w, k),
                        row(w, k),
                    ) {
                        GLOW
                    } else {
                        src@[k]
                    }) by {
                        lemma_pixel_of(w, h, k);
                    }
                }
                x += 1;
            }
            proof {
                assert forall|k: int| 0 <= k < frame@.len() implies frame@[k] == (if row(w, k) < y
                    + 1 && dilates(src@, w, h, rect, column(w, k), row(w, k)) {
                    GLOW
                } else {
                    src@[k]
                }) by {
                    lemma_pixel_of(w, h, k);
                }
            }
            y += 1;
        }
        proof {
            assert forall|k: int| 0 <= k < frame@.len() implies frame@[k] == target[k] by {
                lemma_pixel_of(w, h, k);
            }
            assert(frame@ =~= target);
        }
    }

    /// Draws the particles of the slots in use into the frame. Whatever the
    /// frame held is lost: it is cleared, the particles are drawn in the order
    /// of their slots, and the dilation pass runs over the rectangle that the
    /// particles within the frame span. That rectangle is kept, and the first
    /// scratch buffer is left holding the particles as drawn before the pass;
    /// neither buffer changes its size.
    pub fn draw(&mut self, frame: &mut [u8], particles: &ParticleSystem)
        requires
            old(frame)@.len() == old(self).frame_len(),
        ensures
            final(frame)@ == rendered(
                old(self).mode(),
                particles@,
                old(self).width(),
                old(self).height(),
            ),
            final(self).dirty_rect() == Some(span(particles@, old(self).width(), old(self).height())),
            final(self).scratch().0 == rasterized(
                old(self).mode(),
                particles@,
                old(self).width() as int,
                old(self).height() as int,
            ),
            final(self).scratch().1 == old(self).scratch().1,
            final(self).scratch().0.len() == old(self).frame_len(),
            final(self).scratch().1.len() == old(self).frame_len(),
            final(self).width() == old(self).width(),
            final(self).height() == old(self).height(),
            final(self).mode() == old(self).mode(),
    {
        proof {
            use_type_invariant(&*self);
        }
        let width: usize = self.width;
        let height: usize = self.height;
        let mode: DrawMode = self.mode;
        let ghost w = width as int;
        let ghost h = height as int;
        clear(frame);
        assert(frame@ =~= rasterized(mode, particles@.take(0), w, h));

        let mut min_x: usize = width;
        let mut max_x: usize = 0;
        let mut min_y: usize = height;
        let mut max_y: usize = 0;

        let n: usize = particles.count();
        let mut i: usize = 0;
        while i < n
            invariant
                i <= n,
                n == particles@.len(),
                n == particles.count(),
                width == self.width,
                height == self.height,
                mode == self.mode,
                w == width,
                h == height,
                self.dirty_rect == old(self).dirty_rect,
                frame@.len() == byte_len(w, h),
                frame@ == rasterized(mode, particles@.take(i as int), w, h),
                (min_x, min_y, max_x, max_y) == span(particles@.take(i as int), width, height),
                max_x <= width,
                max_y <= height,
            decreases n - i,
        {
            let p: Particle = particles.slot(i);
            let x: i64 = p.position.x.truncate();
            let y: i64 = p.position.y.truncate();
            let ghost before = frame@;
            match mode {
                DrawMode::Circle { radius } => {
                    self.draw_circle(frame, x, y, radius, p.lifetime);
                },
                DrawMode::Point => {
                    self.draw_point_fast(frame, x, y);
                },
            }
            if 0 <= x && 0 <= y && (x as u64) < (width as u64) && (y as u64) < (height as u64) {
                let px: usize = x as usize;
                let py: usize = y as usize;
                if px < min_x {
                    min_x = px;
                }
                if px > max_x {
                    max_x = px;
                }
                if py < min_y {
                    min_y = py;
                }
                if py > max_y {
                    max_y = py;
                }
            }
            proof {
                lemma_draw_step(mode, particles@, i as int, width, height);
            }
            i += 1;
        }
        assert(particles@.take(n as int) =~= particles@);
        self.dirty_rect = Some((min_x, min_y, max_x, max_y));
        self.dilation(frame);
    }

    /// Width of the buffers that this renderer draws into, in pixels.
    #[verifier::when_used_as_spec(spec_width)]
    pub fn width(&self) -> (r: usize)
        ensures
            r == self.width(),
    {
        self.width
    }

    /// Height of the buffers that this renderer draws into, in pixels.
    #[verifier::when_used_as_spec(spec_height)]
    pub fn height(&self) -> (r: usize)
        ensures
            r == self.height(),
    {
        self.height
    }

    /// How particles are drawn.
    #[verifier::when_used_as_spec(spec_mode)]
    pub fn mode(&self) -> (r: DrawMode)
        ensures
            r == self.mode(),
    {
        self.mode
    }

    /// The rectangle `(min_x, min_y, max_x, max_y)` that the particles of the
    /// last frame spanned, if a frame was drawn.
    #[verifier::when_used_as_spec(spec_dirty_rect)]
    pub fn dirty_rect(&self) -> (r: Option<(usize, usize, usize, usize)>)
        ensures
            r == self.dirty_rect(),
    {
        self.dirty_rect
    }
}

/// A point of the disc of radius `r` lies within `r` of the centre on each axis.
proof fn lemma_disc_in_box(dx: int, dy: int, r: int)
    requires
        r >= 0,
        dx * dx + dy * dy <= r * r,
    ensures
        -r <= dx <= r,
        -r <= dy <= r,
{
    assert(-r <= dx <= r && -r <= dy <= r) by (nonlinear_arith)
        requires
            r >= 0,
            dx * dx + dy * dy <= r * r,
    ;
}

/// The square of a number within `r` of zero is within `r * r`.
proof fn lemma_square_bound(d: int, r: int)
    requires
        -r <= d <= r,
    ensures
        0 <= d * d <= r * r,
{
    assert(0 <= d * d <= r * r) by (nonlinear_arith)
        requires
            -r <= d <= r,
    ;
}

/// Drawing one particle more stamps it on what the particles before it left,
/// and widens the rectangle that they span by its pixel.
pub proof fn lemma_draw_step(mode: DrawMode, ps: Seq<Particle>, i: int, width: usize, height: usize)
    requires
        0 <= i < ps.len(),
    ensures
        rasterized(mode, ps.take(i + 1), width as int, height as int) == stamped(
            rasterized(mode, ps.take(i), width as int, height as int),
            width as int,
            mode,
            center(ps[i]).0,
            center(ps[i]).1,
            ink(mode, ps[i]),
        ),
        span(ps.take(i + 1), width, height) == widened(
            span(ps.take(i), width, height),
            width,
            height,
            center(ps[i]).0,
            center(ps[i]).1,
        ),
{
    assert(ps.take(i + 1).drop_last() =~= ps.take(i));
    assert(ps.take(i + 1).last() == ps[i]);
    assert(rasterized(mode, ps.take(i + 1), width as int, height as int) =~= stamped(
        rasterized(mode, ps.take(i), width as int, height as int),
        width as int,
        mode,
        center(ps[i]).0,
        center(ps[i]).1,
        ink(mode, ps[i]),
    ));
}

/// What the particles leave on a pixel, said without recursion: nothing where
/// no particle covers the pixel, and else the alpha of the particle that covers
/// it and is followed by none that does.
pub proof fn lemma_painted(mode: DrawMode, ps: Seq<Particle>, x: int, y: int)
    ensures
        painted(mode, ps, x, y) is None <==> forall|i: int|
            0 <= i < ps.len() ==> !covers(mode, center(#[trigger] ps[i]).0, center(ps[i]).1, x, y),
        painted(mode, ps, x, y) matches Some(alpha) ==> exists|i: int|
            0 <= i < ps.len() && covers(mode, center(#[trigger] ps[i]).0, center(ps[i]).1, x, y)
                && alpha == ink(mode, ps[i]) && forall|j: int|
                i < j < ps.len() ==> !covers(mode, center(#[trigger] ps[j]).0, center(ps[j]).1, x, y),
    decreases ps.len(),
{
    if ps.len() > 0 {
        let rest = ps.drop_last();
        let last = ps.len() - 1;
        lemma_painted(mode, rest, x, y);
        assert(forall|i: int| 0 <= i < rest.len() ==> rest[i] == ps[i]);
        if covers(mode, center(ps.last()).0, center(ps.last()).1, x, y) {
            assert(covers(mode, center(ps[last]).0, center(ps[last]).1, x, y));
        } else {
            if painted(mode, rest, x, y) is Some {
                let i = choose|i: int|
                    0 <= i < rest.len() && covers(
                        mode,
                        center(#[trigger] rest[i]).0,
                        center(rest[i]).1,
                        x,
                        y,
                    ) && painted(mode, rest, x, y) == Some(ink(mode, rest[i])) && forall|j: int|
                        i < j < rest.len() ==> !covers(
                            mode,
                            center(#[trigger] rest[j]).0,
                            center(rest[j]).1,
                            x,
                            y,
                        );
                assert(rest[i] == ps[i]);
                assert forall|j: int| i < j < ps.len() implies !covers(
                    mode,
                    center(#[trigger] ps[j]).0,
                    center(ps[j]).1,
                    x,
                    y,
                ) by {
                    if j < rest.len() {
                        assert(rest[j] == ps[j]);
                    }
                }
            } else {
                assert forall|i: int| 0 <= i < ps.len() implies !covers(
                    mode,
                    center(#[trigger] ps[i]).0,
                    center(ps[i]).1,
                    x,
                    y,
                ) by {
                    if i < rest.len() {
                        assert(rest[i] == ps[i]);
                    }
                }
            }
        }
    }
}

/// The rectangle that particles span lies within the frame and holds the pixel
/// of every particle that lies within the frame; with no such particle it is
/// `(width, height, 0, 0)`, and else each of its four bounds is the coordinate
/// of such a particle.
pub proof fn lemma_span(ps: Seq<Particle>, width: usize, height: usize)
    ensures
        span(ps, width, height).0 <= width,
        span(ps, width, height).1 <= height,
        span(ps, width, height).2 <= width,
        span(ps, width, height).3 <= height,
        forall|i: int|
            0 <= i < ps.len() && in_frame(
                width as int,
                height as int,
                center(#[trigger] ps[i]).0,
                center(ps[i]).1,
            ) ==> span(ps, width, height).0 <= center(ps[i]).0 <= span(ps, width, height).2 && span(
                ps,
                width,
                height,
            ).1 <= center(ps[i]).1 <= span(ps, width, height).3,
        (forall|i: int|
            0 <= i < ps.len() ==> !in_frame(
                width as int,
                height as int,
                center(#[trigger] ps[i]).0,
                center(ps[i]).1,
            )) ==> span(ps, width, height) == (width, height, 0usize, 0usize),
        (exists|i: int|
            0 <= i < ps.len() && in_frame(
                width as int,
                height as int,
                center(#[trigger] ps[i]).0,
                center(ps[i]).1,
            )) ==> {
            &&& exists|i: int|
                0 <= i < ps.len() && in_frame(
                    width as int,
                    height as int,
                    center(#[trigger] ps[i]).0,
                    center(ps[i]).1,
                ) && center(ps[i]).0 == span(ps, width, height).0
            &&& exists|i: int|
                0 <= i < ps.len() && in_frame(
                    width as int,
                    height as int,
                    center(#[trigger] ps[i]).0,
                    center(ps[i]).1,
                ) && center(ps[i]).1 == span(ps, width, height).1
            &&& exists|i: int|
                0 <= i < ps.len() && in_frame(
                    width as int,
                    height as int,
                    center(#[trigger] ps[i]).0,
                    center(ps[i]).1,
                ) && center(ps[i]).0 == span(ps, width, height).2
            &&& exists|i: int|
                0 <= i < ps.len() && in_frame(
                    width as int,
                    height as int,
                    center(#[trigger] ps[i]).0,
                    center(ps[i]).1,
                ) && center(ps[i]).1 == span(ps, width, height).3
        },
    decreases ps.len(),
{
    if ps.len() > 0 {
        let rest = ps.drop_last();
        let last = ps.len() - 1;
        lemma_span(rest, width, height);
        assert(forall|i: int| 0 <= i < rest.len() ==> rest[i] == ps[i]);
        assert(ps.last() == ps[last]);
        let w = width as int;
        let h = height as int;
        let r = span(ps, width, height);
        let before = span(rest, width, height);
        let here = in_frame(w, h, center(ps[last]).0, center(ps[last]).1);
        let earlier = exists|i: int|
            0 <= i < rest.len() && in_frame(w, h, center(#[trigger] rest[i]).0, center(rest[i]).1);
        if earlier {
            let a = choose|i: int|
                0 <= i < rest.len() && in_frame(w, h, center(#[trigger] rest[i]).0, center(rest[i]).1)
                    && center(rest[i]).0 == before.0;
            let b = choose|i: int|
                0 <= i < rest.len() && in_frame(w, h, center(#[trigger] rest[i]).0, center(rest[i]).1)
                    && center(rest[i]).1 == before.1;
            let c = choose|i: int|
                0 <= i < rest.len() && in_frame(w, h, center(#[trigger] rest[i]).0, center(rest[i]).1)
                    && center(rest[i]).0 == before.2;
            let d = choose|i: int|
                0 <= i < rest.len() && in_frame(w, h, center(#[trigger] rest[i]).0, center(rest[i]).1)
                    && center(rest[i]).1 == before.3;
            assert(rest[a] == ps[a] && rest[b] == ps[b] && rest[c] == ps[c] && rest[d] == ps[d]);
            let a2 = if here && center(ps[last]).0 < before.0 { last } else { a };
            let b2 = if here && center(ps[last]).1 < before.1 { last } else { b };
            let c2 = if here && center(ps[last]).0 > before.2 { last } else { c };
            let d2 = if here && center(ps[last]).1 > before.3 { last } else { d };
            assert(in_frame(w, h, center(ps[a2]).0, center(ps[a2]).1) && center(ps[a2]).0 == r.0);
            assert(in_frame(w, h, center(ps[b2]).0, center(ps[b2]).1) && center(ps[b2]).1 == r.1);
            assert(in_frame(w, h, center(ps[c2]).0, center(ps[c2]).1) && center(ps[c2]).0 == r.2);
            assert(in_frame(w, h, center(ps[d2]).0, center(ps[d2]).1) && center(ps[d2]).1 == r.3);
        } else {
            assert(forall|i: int|
                0 <= i < rest.len() ==> !in_frame(
                    w,
                    h,
                    center(#[trigger] rest[i]).0,
                    center(rest[i]).1,
                ));
            if here {
                assert(in_frame(w, h, center(ps[last]).0, center(ps[last]).1) && center(ps[last]).0
                    == r.0 && center(ps[last]).1 == r.1 && center(ps[last]).0 == r.2 && center(
                    ps[last],
                ).1 == r.3);
            } else {
                assert forall|i: int| 0 <= i < ps.len() implies !in_frame(
                    w,
                    h,
                    center(#[trigger] ps[i]).0,
                    center(ps[i]).1,
                ) by {
                    if i < rest.len() {
                        assert(rest[i] == ps[i]);
                    }
                }
            }
        }
    }
}

/// Full coverage: what `draw` leaves has the length of the buffer, whatever
/// the particles are, and with no particle every byte of it is zero.
pub proof fn lemma_rendered_covers(mode: DrawMode, ps: Seq<Particle>, width: usize, height: usize)
    ensures
        rendered(mode, ps, width, height).len() == byte_len(width as int, height as int),
        ps.len() == 0 ==> rendered(mode, ps, width, height) == blank(
            byte_len(width as int, height as int),
        ),
{
    assert(0 <= byte_len(width as int, height as int)) by (nonlinear_arith);
    if ps.len() == 0 {
        let w = width as int;
        let h = height as int;
        let base = rasterized(mode, ps, w, h);
        assert(base =~= blank(byte_len(w, h)));
        assert forall|k: int| 0 <= k < base.len() implies !dilates(
            base,
            w,
            h,
            span(ps, width, height),
            column(w, k),
            row(w, k),
        ) by {
            lemma_pixel_of(w, h, k);
        }
        assert(rendered(mode, ps, width, height) =~= blank(byte_len(w, h)));
    }
}

/// Locality: the dilation pass leaves the four bytes of every pixel outside
/// its rectangle as they were.
pub proof fn lemma_dilation_is_local(
    frame: Seq<u8>,
    width: usize,
    height: usize,
    rect: (usize, usize, usize, usize),
    x: int,
    y: int,
    c: int,
)
    requires
        frame.len() == byte_len(width as int, height as int),
        in_frame(width as int, height as int, x, y),
        !in_rect(rect, x, y),
        0 <= c < 4,
    ensures
        dilated(frame, width as int, height as int, rect)[offset(width as int, x, y) + c]
            == frame[offset(width as int, x, y) + c],
{
    lemma_offset(width as int, height as int, x, y, c);
}

/// Within its rectangle, bounds included, the dilation pass turns the four
/// bytes of a pixel to the dim grey where the pixel was fully transparent and
/// had a lit pixel next to it, and leaves them as they were elsewhere.
pub proof fn lemma_dilation_within(
    frame: Seq<u8>,
    width: usize,
    height: usize,
    rect: (usize, usize, usize, usize),
    x: int,
    y: int,
    c: int,
)
    requires
        frame.len() == byte_len(width as int, height as int),
        in_frame(width as int, height as int, x, y),
        in_rect(rect, x, y),
        0 <= c < 4,
    ensures
        dilated(frame, width as int, height as int, rect)[offset(width as int, x, y) + c] == (
        if alpha_at(frame, width as int, x, y) == 0 && has_lit_neighbor(
            frame,
            width as int,
            height as int,
            x,
            y,
        ) {
            GLOW
        } else {
            frame[offset(width as int, x, y) + c]
        }),
{
    lemma_offset(width as int, height as int, x, y, c);
}

/// A byte that the dilation pass changes belongs to a pixel of the rectangle
/// that was fully transparent and had a lit pixel next to it before the pass,
/// and it is the dim grey afterwards.
pub proof fn lemma_dilation_fills_transparent_only(
    frame: Seq<u8>,
    width: usize,
    height: usize,
    rect: (usize, usize, usize, usize),
    k: int,
)
    requires
        0 <= k < frame.len(),
    ensures
        dilated(frame, width as int, height as int, rect)[k] != frame[k] ==> {
            &&& dilated(frame, width as int, height as int, rect)[k] == GLOW
            &&& in_rect(rect, column(width as int, k), row(width as int, k))
            &&& alpha_at(frame, width as int, column(width as int, k), row(width as int, k)) == 0
            &&& has_lit_neighbor(
                frame,
                width as int,
                height as int,
                column(width as int, k),
                row(width as int, k),
            )
        },
{
}

} // verus!
