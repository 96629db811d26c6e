//! What a snapshot captures from the desktop: the running applications, the
//! clipboard text and a screenshot stitched from every monitor.

use vstd::prelude::*;
use crate::text::{
    chars_of, decimal, decimal_text, lowercase, same_text, signed_decimal, string_of_range,
    to_lower, trim, trimmed,
};

verus! {

/// The colour of canvas that no monitor covers.
pub const BACKGROUND: (u8, u8, u8) = (12, 13, 16);

/// The widest and highest virtual desktop a screenshot may have, in pixels.
pub const MAX_DESKTOP_SIDE: u32 = 16384;

/// One monitor's capture: its position on the virtual desktop and its pixels as RGBA
/// bytes, row by row.
#[derive(Debug, Clone)]
pub struct MonitorFrame {
    pub x: i32,
    pub y: i32,
    pub width: u32,
    pub height: u32,
    pub rgba: Vec<u8>,
}

/// What a `MonitorFrame` holds, as plain values.
pub struct FrameView {
    pub x: i32,
    pub y: i32,
    pub width: u32,
    pub height: u32,
    pub rgba: Seq<u8>,
}

impl View for MonitorFrame {
    type V = FrameView;

    open spec fn view(&self) -> FrameView {
        FrameView { x: self.x, y: self.y, width: self.width, height: self.height, rgba: self.rgba@ }
    }
}

/// The views of a sequence of frames.
pub open spec fn frame_views(frames: Seq<MonitorFrame>) -> Seq<FrameView> {
    frames.map_values(|f: MonitorFrame| f@)
}

/// The three bytes of pixel `(x, y)` in a row-major buffer `w` pixels wide with
/// `channels` bytes per pixel.
pub open spec fn pixel_in(bytes: Seq<u8>, w: int, channels: int, x: int, y: int) -> (u8, u8, u8) {
    let i = (y * w + x) * channels;
    (bytes[i], bytes[i + 1], bytes[i + 2])
}

proof fn lemma_pixel_index(w: int, h: int, x: int, y: int, channels: int)
    requires
        0 <= x < w,
        0 <= y < h,
        1 <= channels,
    ensures
        0 <= (y * w + x) * channels,
        (y * w + x) * channels + channels <= channels * w * h,
{
    assert(y * w + x < (y + 1) * w) by (nonlinear_arith)
        requires
            0 <= x < w,
    ;
    assert((y + 1) * w <= h * w) by (nonlinear_arith)
        requires
            y < h,
            0 <= w,
    ;
    assert(0 <= y * w + x) by (nonlinear_arith)
        requires
            0 <= x,
            0 <= y,
            0 <= w,
    ;
    assert((y * w + x) * channels + channels <= channels * w * h) by (nonlinear_arith)
        requires
            y * w + x + 1 <= h * w,
            1 <= channels,
            0 <= y * w + x,
    ;
    assert(0 <= (y * w + x) * channels) by (nonlinear_arith)
        requires
            0 <= y * w + x,
            1 <= channels,
    ;
}

/// An RGB image held in an `image::RgbImage`. What it holds is named by
/// `canvas_size` and `canvas_pixels`; only the methods below make or change one.
#[verifier::external_body]
#[derive(Debug)]
pub struct Canvas {
    img: image::RgbImage,
}

/// The width and height that a canvas was made with.
pub uninterp spec fn canvas_size(c: Canvas) -> (u32, u32);

/// The pixels of a canvas, by `(x, y)`, as `(red, green, blue)`.
pub uninterp spec fn canvas_pixels(c: Canvas) -> Map<(int, int), (u8, u8, u8)>;

impl Canvas {
    /// The width in pixels.
    pub open spec fn spec_width(&self) -> u32 {
        canvas_size(*self).0
    }

    /// The height in pixels.
    pub open spec fn spec_height(&self) -> u32 {
        canvas_size(*self).1
    }

    /// The pixels, by `(x, y)`, as `(red, green, blue)`.
    pub open spec fn pixels(&self) -> Map<(int, int), (u8, u8, u8)> {
        canvas_pixels(*self)
    }

    /// Calls `image::ImageBuffer::from_pixel`: a canvas of `width` by `height` pixels,
    /// each `colour`. The buffer of `3 * width * height` bytes must fit a `Vec`, or
    /// the call panics.
    #[verifier::external_body]
    fn filled(width: u32, height: u32, colour: (u8, u8, u8)) -> (c: Canvas)
        requires
            3 * width * height <= isize::MAX,
        ensures
            canvas_size(c) == (width, height),
            canvas_pixels(c) == Map::new(
                |p: (int, int)| 0 <= p.0 < width && 0 <= p.1 < height,
                |p: (int, int)| colour,
            ),
    {
        Canvas {
            img: image::RgbImage::from_pixel(width, height, image::Rgb([colour.0, colour.1, colour.2])),
        }
    }

    /// Calls `image::ImageBuffer::put_pixel`: pixel `(x, y)` becomes `colour`, and
    /// nothing else changes. The call panics outside the canvas.
    #[verifier::external_body]
    fn put(&mut self, x: u32, y: u32, colour: (u8, u8, u8))
        requires
            x < old(self).spec_width(),
            y < old(self).spec_height(),
        ensures
            canvas_size(*final(self)) == canvas_size(*old(self)),
            canvas_pixels(*final(self)) == canvas_pixels(*old(self)).insert(
                (x as int, y as int),
                colour,
            ),
    {
        self.img.put_pixel(x, y, image::Rgb([colour.0, colour.1, colour.2]));
    }

    /// Calls `image::ImageBuffer::width`.
    #[verifier::external_body]
    fn image_width(&self) -> (r: u32)
        ensures
            r == canvas_size(*self).0,
    {
        self.img.width()
    }

    /// Calls `image::ImageBuffer::height`.
    #[verifier::external_body]
    fn image_height(&self) -> (r: u32)
        ensures
            r == canvas_size(*self).1,
    {
        self.img.height()
    }

    /// Calls `image::ImageBuffer::get_pixel` and reads its three channels. The call
    /// panics outside the canvas.
    #[verifier::external_body]
    fn pixel_at(&self, x: u32, y: u32) -> (r: (u8, u8, u8))
        requires
            x < self.spec_width(),
            y < self.spec_height(),
        ensures
            r == canvas_pixels(*self)[(x as int, y as int)],
    {
        let p = self.img.get_pixel(x, y);
        (p[0], p[1], p[2])
    }

    /// Calls `image::ImageBuffer::into_raw`: the pixel bytes, row by row, three per
    /// pixel, as `ImageBuffer` lays them out. A canvas is only made by `from_pixel`,
    /// which allocates exactly that many bytes, and `put_pixel` keeps the length.
    #[verifier::external_body]
    fn into_raw(self) -> (r: Vec<u8>)
        ensures
            r@.len() == 3 * canvas_size(self).0 * canvas_size(self).1,
            forall|x: int, y: int|
                0 <= x < canvas_size(self).0 && 0 <= y < canvas_size(self).1 ==> pixel_in(
                    r@,
                    canvas_size(self).0 as int,
                    3,
                    x,
                    y,
                ) == #[trigger] canvas_pixels(self)[(x, y)],
    {
        self.img.into_raw()
    }

    /// The width in pixels.
    pub fn width(&self) -> (r: u32)
        ensures
            r == self.spec_width(),
    {
        self.image_width()
    }

    /// The height in pixels.
    pub fn height(&self) -> (r: u32)
        ensures
            r == self.spec_height(),
    {
        self.image_height()
    }

    /// The colour of pixel `(x, y)`, which lies on the canvas.
    pub fn get_pixel(&self, x: u32, y: u32) -> (r: (u8, u8, u8))
        requires
            x < self.spec_width(),
            y < self.spec_height(),
        ensures
            r == self.pixels()[(x as int, y as int)],
    {
        self.pixel_at(x, y)
    }

    /// The pixel bytes, row by row, three per pixel: what `image::RgbImage::from_raw`
    /// takes back.
    pub fn into_rgb_bytes(self) -> (r: Vec<u8>)
        ensures
            r@.len() == 3 * self.spec_width() * self.spec_height(),
            forall|x: int, y: int|
                0 <= x < self.spec_width() && 0 <= y < self.spec_height() ==> pixel_in(
                    r@,
                    self.spec_width() as int,
                    3,
                    x,
                    y,
                ) == #[trigger] self.pixels()[(x, y)],
    {
        self.into_raw()
    }
}

/// Where a frame ends on the x axis: `x + width`, held at `i32::MAX` as
/// `i32::saturating_add_unsigned` holds it.
pub open spec fn right_edge(f: FrameView) -> int {
    if f.x + f.width > i32::MAX {
        i32::MAX as int
    } else {
        f.x + f.width
    }
}

/// Where a frame ends on the y axis, held at `i32::MAX`.
pub open spec fn bottom_edge(f: FrameView) -> int {
    if f.y + f.height > i32::MAX {
        i32::MAX as int
    } else {
        f.y + f.height
    }
}

/// The smallest `x` of a non-empty list of frames.
pub open spec fn least_x(fs: Seq<FrameView>) -> int
    decreases fs.len(),
{
    if fs.len() <= 1 {
        fs[0].x as int
    } else if least_x(fs.drop_last()) <= fs.last().x {
        least_x(fs.drop_last())
    } else {
        fs.last().x as int
    }
}

/// The smallest `y` of a non-empty list of frames.
pub open spec fn least_y(fs: Seq<FrameView>) -> int
    decreases fs.len(),
{
    if fs.len() <= 1 {
        fs[0].y as int
    } else if least_y(fs.drop_last()) <= fs.last().y {
        least_y(fs.drop_last())
    } else {
        fs.last().y as int
    }
}

/// The largest right edge of a non-empty list of frames.
pub open spec fn greatest_right(fs: Seq<FrameView>) -> int
    decreases fs.len(),
{
    if fs.len() <= 1 {
        right_edge(fs[0])
    } else if greatest_right(fs.drop_last()) >= right_edge(fs.last()) {
        greatest_right(fs.drop_last())
    } else {
        right_edge(fs.last())
    }
}

/// The largest bottom edge of a non-empty list of frames.
pub open spec fn greatest_bottom(fs: Seq<FrameView>) -> int
    decreases fs.len(),
{
    if fs.len() <= 1 {
        bottom_edge(fs[0])
    } else if greatest_bottom(fs.drop_last()) >= bottom_edge(fs.last()) {
        greatest_bottom(fs.drop_last())
    } else {
        bottom_edge(fs.last())
    }
}

proof fn lemma_bounds(fs: Seq<FrameView>, k: int)
    requires
        0 <= k < fs.len(),
    ensures
        least_x(fs) <= fs[k].x,
        least_y(fs) <= fs[k].y,
        fs[k].x <= right_edge(fs[k]) <= greatest_right(fs),
        fs[k].y <= bottom_edge(fs[k]) <= greatest_bottom(fs),
    decreases fs.len(),
{
    if fs.len() > 1 && k < fs.len() - 1 {
        lemma_bounds(fs.drop_last(), k);
    }
}

/// Whether frame `f` has enough bytes for its pixels, as `RgbaImage::from_raw` asks.
pub open spec fn buffer_fits(f: FrameView) -> bool {
    4 * f.width * f.height <= f.rgba.len()
}

/// Whether `f`, placed at `(ox, oy)` on the canvas, covers canvas pixel `(px, py)`.
pub open spec fn covers(f: FrameView, ox: int, oy: int, px: int, py: int) -> bool {
    ox <= px < ox + f.width && oy <= py < oy + f.height
}

/// The colour of canvas pixel `(px, py)` once `fs` are drawn in order, each at its
/// offset from `(mx, my)`: the last frame that covers the pixel decides.
pub open spec fn stitched_pixel(fs: Seq<FrameView>, mx: int, my: int, px: int, py: int) -> (
    u8,
    u8,
    u8,
)
    decreases fs.len(),
{
    if fs.len() == 0 {
        BACKGROUND
    } else {
        let f = fs.last();
        let ox = f.x - mx;
        let oy = f.y - my;
        if covers(f, ox, oy, px, py) {
            pixel_in(f.rgba, f.width as int, 4, px - ox, py - oy)
        } else {
            stitched_pixel(fs.drop_last(), mx, my, px, py)
        }
    }
}

/// The width of the virtual desktop that `fs` span.
pub open spec fn desktop_width(fs: Seq<FrameView>) -> int {
    greatest_right(fs) - least_x(fs)
}

/// The height of the virtual desktop that `fs` span.
pub open spec fn desktop_height(fs: Seq<FrameView>) -> int {
    greatest_bottom(fs) - least_y(fs)
}

/// Whether the desktop size is one `stitch_frames` accepts.
pub open spec fn desktop_ok(fs: Seq<FrameView>) -> bool {
    0 < desktop_width(fs) <= MAX_DESKTOP_SIDE && 0 < desktop_height(fs) <= MAX_DESKTOP_SIDE
}

/// What `stitch_frames` returns for `fs`: an error message, or the width, height
/// and pixels of the canvas.
pub open spec fn stitched(fs: Seq<FrameView>) -> Result<(u32, u32, Map<(int, int), (u8, u8, u8)>), Seq<char>> {
    if fs.len() == 0 {
        Err("no frames to stitch"@)
    } else if !desktop_ok(fs) {
        Err("invalid virtual desktop "@ + signed_decimal(desktop_width(fs)) + "x"@
            + signed_decimal(desktop_height(fs)))
    } else if exists|k: int| 0 <= k < fs.len() && !buffer_fits(#[trigger] fs[k]) {
        Err("rgba buffer rejected"@)
    } else {
        let w = desktop_width(fs);
        let h = desktop_height(fs);
        Ok(
            (
                w as u32,
                h as u32,
                Map::new(
                    |p: (int, int)| 0 <= p.0 < w && 0 <= p.1 < h,
                    |p: (int, int)| stitched_pixel(fs, least_x(fs), least_y(fs), p.0, p.1),
                ),
            ),
        )
    }
}

/// The inputs on which `stitch_frames` runs without an arithmetic overflow: the
/// desktop spans at most `i32::MAX` pixels each way, and every frame that gets
/// drawn ends within `u32` range on the canvas.
pub open spec fn stitch_in_range(fs: Seq<FrameView>) -> bool {
    fs.len() > 0 ==> {
        &&& desktop_width(fs) <= i32::MAX
        &&& desktop_height(fs) <= i32::MAX
        &&& desktop_ok(fs) ==> forall|k: int|
            #![trigger fs[k]]
            0 <= k < fs.len() && (forall|j: int| 0 <= j <= k ==> buffer_fits(fs[j])) && fs[k].width
                > 0 && fs[k].height > 0 ==> {
                &&& fs[k].x - least_x(fs) + fs[k].width - 1 <= u32::MAX
                &&& fs[k].y - least_y(fs) + fs[k].height - 1 <= u32::MAX
            }
    }
}

/// Whether `frame`, at `(ox, oy)`, has drawn canvas pixel `p` once its source pixels
/// before row `sy`, column `sx` are drawn.
pub open spec fn drawn_before(f: FrameView, ox: int, oy: int, p: (int, int), sy: int, sx: int) -> bool {
    covers(f, ox, oy, p.0, p.1) && (p.1 - oy < sy || (p.1 - oy == sy && p.0 - ox < sx))
}

/// The canvas while frame `f` is being drawn over `fs`.
pub open spec fn partly_drawn(
    fs: Seq<FrameView>,
    f: FrameView,
    mx: int,
    my: int,
    w: int,
    h: int,
    sy: int,
    sx: int,
) -> Map<(int, int), (u8, u8, u8)> {
    Map::new(
        |p: (int, int)| 0 <= p.0 < w && 0 <= p.1 < h,
        |p: (int, int)|
            if drawn_before(f, f.x - mx, f.y - my, p, sy, sx) {
                pixel_in(f.rgba, f.width as int, 4, p.0 - (f.x - mx), p.1 - (f.y - my))
            } else {
                stitched_pixel(fs, mx, my, p.0, p.1)
            },
    )
}

/// Draws `frame` at `(ox, oy)` over `canvas`, pixel by pixel in row order, keeping
/// those that land on the canvas.
fn draw_frame(
    canvas: &mut Canvas,
    frame: &MonitorFrame,
    ox: u32,
    oy: u32,
    Ghost(before): Ghost<Seq<FrameView>>,
    Ghost(mx): Ghost<int>,
    Ghost(my): Ghost<int>,
)
    requires
        buffer_fits(frame@),
        ox == frame.x - mx,
        oy == frame.y - my,
        frame.width > 0 && frame.height > 0 ==> {
            &&& ox + frame.width - 1 <= u32::MAX
            &&& oy + frame.height - 1 <= u32::MAX
        },
        old(canvas).pixels() == partly_drawn(
            before,
            frame@,
            mx,
            my,
            old(canvas).spec_width() as int,
            old(canvas).spec_height() as int,
            0,
            0,
        ),
    ensures
        final(canvas).spec_width() == old(canvas).spec_width(),
        final(canvas).spec_height() == old(canvas).spec_height(),
        final(canvas).pixels() == partly_drawn(
            before,
            frame@,
            mx,
            my,
            old(canvas).spec_width() as int,
            old(canvas).spec_height() as int,
            frame.height as int,
            0,
        ),
{
    let fw = frame.width;
    let fh = frame.height;
    let w = canvas.width();
    let h = canvas.height();
    let ghost f = frame@;
    let mut sy: u32 = 0;
    while sy < fh
        invariant
            sy <= fh,
            fw == f.width,
            fh == f.height,
            f == frame@,
            canvas.spec_width() == w,
            canvas.spec_height() == h,
            buffer_fits(f),
            ox == f.x - mx,
            oy == f.y - my,
            fw > 0 && fh > 0 ==> {
                &&& ox + fw - 1 <= u32::MAX
                &&& oy + fh - 1 <= u32::MAX
            },
            canvas.pixels() == partly_drawn(before, f, mx, my, w as int, h as int, sy as int, 0),
        decreases fh - sy,
    {
        let mut sx: u32 = 0;
        while sx < fw
            invariant
                sx <= fw,
                sy < fh,
                fw == f.width,
                fh == f.height,
                f == frame@,
                    canvas.spec_width() == w,
                canvas.spec_height() == h,
                buffer_fits(f),
                ox == f.x - mx,
                oy == f.y - my,
                fw > 0 && fh > 0 ==> {
                    &&& ox + fw - 1 <= u32::MAX
                    &&& oy + fh - 1 <= u32::MAX
                },
                canvas.pixels() == partly_drawn(
                    before,
                    f,
                    mx,
                    my,
                    w as int,
                    h as int,
                    sy as int,
                    sx as int,
                ),
            decreases fw - sx,
        {
            let dx = ox + sx;
            let dy = oy + sy;
            let ghost old_pixels = canvas.pixels();
            proof {
                lemma_pixel_index(fw as int, fh as int, sx as int, sy as int, 4);
                assert(4 * fw * fh == fw * fh * 4) by (nonlinear_arith);
                assert(frame.rgba.len() == frame.rgba@.len());
            }
            let i: usize = ((sy as usize) * (fw as usize) + (sx as usize)) * 4;
            if dx < w && dy < h {
                let colour = (frame.rgba[i], frame.rgba[i + 1], frame.rgba[i + 2]);
                canvas.put(dx, dy, colour);
                assert(canvas.pixels() =~= partly_drawn(
                    before,
                    f,
                    mx,
                    my,
                    w as int,
                    h as int,
                    sy as int,
                    sx + 1,
                ));
            } else {
                assert(canvas.pixels() =~= partly_drawn(
                    before,
                    f,
                    mx,
                    my,
                    w as int,
                    h as int,
                    sy as int,
                    sx + 1,
                ));
            }
            sx = sx + 1;
        }
        assert(partly_drawn(before, f, mx, my, w as int, h as int, sy as int, fw as int)
            =~= partly_drawn(before, f, mx, my, w as int, h as int, sy + 1, 0));
        sy = sy + 1;
    }
}


proof fn lemma_start_drawing(fs: Seq<FrameView>, f: FrameView, mx: int, my: int, w: int, h: int)
    ensures
        partly_drawn(fs, f, mx, my, w, h, 0, 0) == Map::new(
            |p: (int, int)| 0 <= p.0 < w && 0 <= p.1 < h,
            |p: (int, int)| stitched_pixel(fs, mx, my, p.0, p.1),
        ),
{
    assert(partly_drawn(fs, f, mx, my, w, h, 0, 0) =~= Map::new(
        |p: (int, int)| 0 <= p.0 < w && 0 <= p.1 < h,
        |p: (int, int)| stitched_pixel(fs, mx, my, p.0, p.1),
    ));
}

proof fn lemma_end_drawing(fs: Seq<FrameView>, mx: int, my: int, w: int, h: int)
    requires
        fs.len() > 0,
    ensures
        partly_drawn(fs.drop_last(), fs.last(), mx, my, w, h, fs.last().height as int, 0)
            == Map::new(
            |p: (int, int)| 0 <= p.0 < w && 0 <= p.1 < h,
            |p: (int, int)| stitched_pixel(fs, mx, my, p.0, p.1),
        ),
{
    assert(partly_drawn(fs.drop_last(), fs.last(), mx, my, w, h, fs.last().height as int, 0)
        =~= Map::new(
        |p: (int, int)| 0 <= p.0 < w && 0 <= p.1 < h,
        |p: (int, int)| stitched_pixel(fs, mx, my, p.0, p.1),
    ));
}

/// Where `f` ends on the x axis, held at `i32::MAX`.
fn right_of(f: &MonitorFrame) -> (r: i32)
    ensures
        r == right_edge(f@),
{
    let e: i64 = f.x as i64 + f.width as i64;
    if e > i32::MAX as i64 {
        i32::MAX
    } else {
        e as i32
    }
}

/// Where `f` ends on the y axis, held at `i32::MAX`.
fn bottom_of(f: &MonitorFrame) -> (r: i32)
    ensures
        r == bottom_edge(f@),
{
    let e: i64 = f.y as i64 + f.height as i64;
    if e > i32::MAX as i64 {
        i32::MAX
    } else {
        e as i32
    }
}

/// Whether `f` has enough bytes for its pixels.
fn fits(f: &MonitorFrame) -> (r: bool)
    ensures
        r == buffer_fits(f@),
{
    proof {
        assert((4 * f.width) * f.height <= (4 * 0x1_0000_0000) * 0x1_0000_0000) by (nonlinear_arith)
            requires
                f.width <= u32::MAX,
                f.height <= u32::MAX,
        ;
        assert(4 * f.width * f.height == (4 * f.width) * f.height) by (nonlinear_arith);
    }
    let need: u128 = (4u128 * (f.width as u128)) * (f.height as u128);
    need <= f.rgba.len() as u128
}

/// The error for a desktop of the given size.
fn invalid_desktop(w: u32, h: u32) -> (r: String)
    ensures
        r@ == "invalid virtual desktop "@ + signed_decimal(w as int) + "x"@ + signed_decimal(
            h as int,
        ),
{
    let mut msg = "invalid virtual desktop ".to_owned();
    msg.append(decimal_text(w as i64).as_str());
    msg.append("x");
    msg.append(decimal_text(h as i64).as_str());
    msg
}

/// The smallest `x` and `y` and the largest right and bottom edges of `frames`.
fn desktop_bounds(frames: &[MonitorFrame]) -> (r: (i32, i32, i32, i32))
    requires
        frames@.len() > 0,
    ensures
        r.0 == least_x(frame_views(frames@)),
        r.1 == least_y(frame_views(frames@)),
        r.2 == greatest_right(frame_views(frames@)),
        r.3 == greatest_bottom(frame_views(frames@)),
{
    let ghost fs = frame_views(frames@);
    let mut min_x = frames[0].x;
    let mut min_y = frames[0].y;
    let mut max_x = right_of(&frames[0]);
    let mut max_y = bottom_of(&frames[0]);
    let mut i: usize = 1;
    assert(fs.take(1).len() == 1 && fs.take(1)[0] == fs[0]);
    while i < frames.len()
        invariant
            1 <= i <= frames@.len(),
            fs == frame_views(frames@),
            min_x == least_x(fs.take(i as int)),
            min_y == least_y(fs.take(i as int)),
            max_x == greatest_right(fs.take(i as int)),
            max_y == greatest_bottom(fs.take(i as int)),
        decreases frames@.len() - i,
    {
        assert(fs.take(i + 1).drop_last() =~= fs.take(i as int));
        assert(fs.take(i + 1).last() == frames@[i as int]@);
        let f = &frames[i];
        if f.x < min_x {
            min_x = f.x;
        }
        if f.y < min_y {
            min_y = f.y;
        }
        let r = right_of(f);
        if r > max_x {
            max_x = r;
        }
        let b = bottom_of(f);
        if b > max_y {
            max_y = b;
        }
        i = i + 1;
    }
    assert(fs.take(frames@.len() as int) =~= fs);
    (min_x, min_y, max_x, max_y)
}

/// Whether stitching `frames` stays free of arithmetic overflow, which callers test
/// before `stitch_frames`.
pub fn frames_in_range(frames: &[MonitorFrame]) -> (r: bool)
    ensures
        r == stitch_in_range(frame_views(frames@)),
{
    let ghost fs = frame_views(frames@);
    if frames.len() == 0 {
        return true;
    }
    let (min_x, min_y, max_x, max_y) = desktop_bounds(frames);
    proof {
        lemma_bounds(fs, 0);
    }
    let w: i64 = (max_x as i64) - (min_x as i64);
    let h: i64 = (max_y as i64) - (min_y as i64);
    assert(w == desktop_width(fs) && h == desktop_height(fs));
    if w > i32::MAX as i64 || h > i32::MAX as i64 {
        return false;
    }
    if !(0 < w && w <= MAX_DESKTOP_SIDE as i64 && 0 < h && h <= MAX_DESKTOP_SIDE as i64) {
        return true;
    }
    let mut k: usize = 0;
    while k < frames.len()
        invariant
            k <= frames@.len(),
            fs == frame_views(frames@),
            fs.len() > 0,
            min_x == least_x(fs),
            min_y == least_y(fs),
            desktop_ok(fs),
            desktop_width(fs) <= i32::MAX,
            desktop_height(fs) <= i32::MAX,
            forall|j: int| 0 <= j < k ==> buffer_fits(#[trigger] fs[j]),
            forall|j: int|
                #![trigger fs[j]]
                0 <= j < k && fs[j].width > 0 && fs[j].height > 0 ==> {
                    &&& fs[j].x - least_x(fs) + fs[j].width - 1 <= u32::MAX
                    &&& fs[j].y - least_y(fs) + fs[j].height - 1 <= u32::MAX
                },
        decreases frames@.len() - k,
    {
        let f = &frames[k];
        assert(fs[k as int] == f@);
        if !fits(f) {
            assert forall|j: int|
                #![trigger fs[j]]
                0 <= j < fs.len() && (forall|i: int| 0 <= i <= j ==> buffer_fits(fs[i]))
                    && fs[j].width > 0 && fs[j].height > 0 implies {
                    &&& fs[j].x - least_x(fs) + fs[j].width - 1 <= u32::MAX
                    &&& fs[j].y - least_y(fs) + fs[j].height - 1 <= u32::MAX
                } by {
                if j >= k {
                    assert(buffer_fits(fs[k as int]));
                }
            }
            assert(stitch_in_range(fs));
            return true;
        }
        if f.width > 0 && f.height > 0 {
            let ox: i64 = (f.x as i64) - (min_x as i64);
            let oy: i64 = (f.y as i64) - (min_y as i64);
            if ox + (f.width as i64) - 1 > u32::MAX as i64 || oy + (f.height as i64) - 1
                > u32::MAX as i64 {
                proof {
                    assert(forall|i: int| 0 <= i <= k ==> buffer_fits(#[trigger] fs[i]));
                    assert(!({
                        &&& fs[k as int].x - least_x(fs) + fs[k as int].width - 1 <= u32::MAX
                        &&& fs[k as int].y - least_y(fs) + fs[k as int].height - 1 <= u32::MAX
                    }));
                }
                return false;
            }
        }
        k = k + 1;
    }
    true
}

proof fn lemma_frame_on_canvas(fs: Seq<FrameView>, k: int)
    requires
        stitch_in_range(fs),
        fs.len() > 0,
        desktop_ok(fs),
        0 <= k < fs.len(),
        forall|j: int| 0 <= j <= k ==> buffer_fits(#[trigger] fs[j]),
    ensures
        least_x(fs) <= fs[k].x,
        least_y(fs) <= fs[k].y,
        fs[k].width > 0 && fs[k].height > 0 ==> {
            &&& fs[k].x - least_x(fs) + fs[k].width - 1 <= u32::MAX
            &&& fs[k].y - least_y(fs) + fs[k].height - 1 <= u32::MAX
        },
{
    lemma_bounds(fs, k);
}

/// Stitches the monitor captures into one RGB canvas covering the whole virtual
/// desktop: the canvas spans from the smallest `x`/`y` to the largest right/bottom
/// edge, starts in `BACKGROUND`, and every frame is drawn over it in order, each at
/// its offset from the top-left corner, so the last frame covering a pixel decides
/// its colour. Fails when there is no frame, when the desktop is empty or wider or
/// higher than `MAX_DESKTOP_SIDE`, or when a frame has too few bytes for its size.
#[verifier::rlimit(40)]
pub fn stitch_frames(frames: &[MonitorFrame]) -> (r: Result<Canvas, String>)
    requires
        stitch_in_range(frame_views(frames@)),
    ensures
        match (r, stitched(frame_views(frames@))) {
            (Ok(c), Ok(expect)) => c.spec_width() == expect.0 && c.spec_height()
                == expect.1 && c.pixels() == expect.2,
            (Err(e), Err(msg)) => e@ == msg,
            _ => false,
        },
{
    let ghost fs = frame_views(frames@);
    if frames.len() == 0 {
        return Err("no frames to stitch".to_owned());
    }
    let (min_x, min_y, max_x, max_y) = desktop_bounds(frames);
    proof {
        lemma_bounds(fs, 0);
    }
    let w: u32 = ((max_x as i64) - (min_x as i64)) as u32;
    let h: u32 = ((max_y as i64) - (min_y as i64)) as u32;
    if w == 0 || h == 0 || w > MAX_DESKTOP_SIDE || h > MAX_DESKTOP_SIDE {
        return Err(invalid_desktop(w, h));
    }
    assert(3 * w * h <= 3 * 16384 * 16384) by (nonlinear_arith)
        requires
            w <= 16384,
            h <= 16384,
    ;
    let mut canvas = Canvas::filled(w, h, BACKGROUND);
    let ghost empty: Seq<FrameView> = Seq::empty();
    assert(canvas.pixels() =~= Map::new(
        |p: (int, int)| 0 <= p.0 < w && 0 <= p.1 < h,
        |p: (int, int)| stitched_pixel(fs.take(0), min_x as int, min_y as int, p.0, p.1),
    ));
    let mut k: usize = 0;
    while k < frames.len()
        invariant
            k <= frames@.len(),
            fs == frame_views(frames@),
            fs.len() > 0,
            min_x == least_x(fs),
            min_y == least_y(fs),
            w == desktop_width(fs),
            h == desktop_height(fs),
            desktop_ok(fs),
            stitch_in_range(fs),
            canvas.spec_width() == w,
            canvas.spec_height() == h,
            forall|j: int| 0 <= j < k ==> buffer_fits(#[trigger] fs[j]),
            canvas.pixels() == Map::new(
                |p: (int, int)| 0 <= p.0 < w && 0 <= p.1 < h,
                |p: (int, int)| stitched_pixel(fs.take(k as int), min_x as int, min_y as int, p.0, p.1),
            ),
        decreases frames@.len() - k,
    {
        let f = &frames[k];
        assert(fs[k as int] == f@);
        if !fits(f) {
            return Err("rgba buffer rejected".to_owned());
        }
        proof {
            assert(forall|j: int| 0 <= j <= k ==> buffer_fits(#[trigger] fs[j]));
            lemma_frame_on_canvas(fs, k as int);
        }
        let ox: u32 = ((f.x as i64) - (min_x as i64)) as u32;
        let oy: u32 = ((f.y as i64) - (min_y as i64)) as u32;
        proof {
            lemma_start_drawing(fs.take(k as int), f@, min_x as int, min_y as int, w as int, h as int);
        }
        draw_frame(
            &mut canvas,
            f,
            ox,
            oy,
            Ghost(fs.take(k as int)),
            Ghost(min_x as int),
            Ghost(min_y as int),
        );
        proof {
            assert(fs.take(k + 1).drop_last() =~= fs.take(k as int));
            assert(fs.take(k + 1).last() == f@);
            lemma_end_drawing(fs.take(k + 1), min_x as int, min_y as int, w as int, h as int);
        }
        k = k + 1;
    }
    assert(fs.take(frames@.len() as int) =~= fs);
    Ok(canvas)
}


/// A running application as a snapshot records it.
#[derive(Debug, Clone, PartialEq, Eq)]
pub struct AppRow {
    pub name: String,
    pub exe: Option<String>,
    pub pid: u32,
}

/// A process as the system reports it: its id, its name and the path of its
/// executable, where known.
#[derive(Debug, Clone)]
pub struct ProcessEntry {
    pub pid: u32,
    pub name: String,
    pub exe: Option<String>,
}

/// The most applications a snapshot records.
pub const MAX_APPS: usize = 80;

/// Whether a lower-cased process name is one of the system processes a snapshot
/// leaves out.
pub open spec fn noise_name(s: Seq<char>) -> bool {
    ||| s == "system"@
    ||| s == "idle"@
    ||| s == "registry"@
    ||| s == "smss.exe"@
    ||| s == "csrss.exe"@
    ||| s == "svchost.exe"@
    ||| s == "wininit.exe"@
    ||| s == "services.exe"@
}

/// Whether `name`, in lower case, names a system process that a snapshot leaves out.
pub fn is_noise(name: &str) -> (r: bool)
    ensures
        r == noise_name(lowercase(name@)),
{
    let lower = to_lower(name);
    let l = lower.as_str();
    same_text(l, "system") || same_text(l, "idle") || same_text(l, "registry") || same_text(
        l,
        "smss.exe",
    ) || same_text(l, "csrss.exe") || same_text(l, "svchost.exe") || same_text(l, "wininit.exe")
        || same_text(l, "services.exe")
}

/// What an `AppRow` holds, as plain values.
pub struct AppView {
    pub name: Seq<char>,
    pub exe: Option<Seq<char>>,
    pub pid: u32,
}

/// The view of an optional string.
pub open spec fn opt_chars(o: Option<String>) -> Option<Seq<char>> {
    match o {
        Some(s) => Some(s@),
        None => None,
    }
}

impl View for AppRow {
    type V = AppView;

    open spec fn view(&self) -> AppView {
        AppView { name: self.name@, exe: opt_chars(self.exe), pid: self.pid }
    }
}

/// The views of a list of applications.
pub open spec fn app_views(apps: Seq<AppRow>) -> Seq<AppView> {
    apps.map_values(|a: AppRow| a@)
}

/// The applications recorded and the focused name found after looking at `procs`
/// in order, with `fg` the foreground process, before the fallback to `pid:<id>`.
pub open spec fn apps_scan(procs: Seq<ProcessEntry>, fg: Option<u32>) -> (Seq<AppView>, Option<Seq<char>>)
    decreases procs.len(),
{
    if procs.len() == 0 {
        (Seq::empty(), None)
    } else {
        let (apps, focused) = apps_scan(procs.drop_last(), fg);
        let p = procs.last();
        if apps.len() >= MAX_APPS || p.name@.len() == 0 || noise_name(lowercase(p.name@)) {
            (apps, focused)
        } else {
            (
                apps.push(AppView { name: p.name@, exe: opt_chars(p.exe), pid: p.pid }),
                if fg == Some(p.pid) {
                    Some(p.name@)
                } else {
                    focused
                },
            )
        }
    }
}

/// The focused name a snapshot records: the name of the foreground process when it
/// was recorded, else `pid:<id>` when a foreground process is known.
pub open spec fn focus_label(found: Option<Seq<char>>, fg: Option<u32>) -> Option<Seq<char>> {
    match found {
        Some(n) => Some(n),
        None => match fg {
            Some(pid) => Some("pid:"@ + decimal(pid as nat)),
            None => None,
        },
    }
}

/// The applications a snapshot records from the process list `procs`, in order, and
/// the focused application: processes with an empty or system name are skipped,
/// at most `MAX_APPS` are recorded, and the focused name is that of the foreground
/// process `foreground` when it is recorded, else `pid:<id>`.
pub fn list_apps(procs: Vec<ProcessEntry>, foreground: Option<u32>) -> (r: (
    Vec<AppRow>,
    Option<String>,
))
    ensures
        app_views(r.0@) == apps_scan(procs@, foreground).0,
        opt_chars(r.1) == focus_label(apps_scan(procs@, foreground).1, foreground),
{
    let mut apps: Vec<AppRow> = Vec::new();
    let mut focused: Option<String> = None;
    let mut i: usize = 0;
    assert(procs@.take(0) =~= Seq::<ProcessEntry>::empty());
    while i < procs.len()
        invariant
            i <= procs@.len(),
            (app_views(apps@), opt_chars(focused)) == apps_scan(procs@.take(i as int), foreground),
        decreases procs@.len() - i,
    {
        assert(procs@.take(i + 1).drop_last() =~= procs@.take(i as int));
        assert(procs@.take(i + 1).last() == procs@[i as int]);
        let p = &procs[i];
        if apps.len() < MAX_APPS && !p.name.as_str().is_empty() && !is_noise(p.name.as_str()) {
            if foreground == Some(p.pid) {
                focused = Some(p.name.clone());
            }
            let ghost before = apps@;
            let row = AppRow { name: p.name.clone(), exe: p.exe.clone(), pid: p.pid };
            apps.push(row);
            assert(app_views(apps@) =~= app_views(before).push(row@));
        }
        i = i + 1;
    }
    assert(procs@.take(procs@.len() as int) =~= procs@);
    if focused.is_none() {
        if let Some(pid) = foreground {
            let mut label = "pid:".to_owned();
            label.append(decimal_text(pid as i64).as_str());
            focused = Some(label);
        }
    }
    (apps, focused)
}

/// What reading the clipboard gave.
pub enum ClipboardRead {
    /// The clipboard could not be opened; the message says why.
    Unavailable(String),
    /// The clipboard was opened but its text could not be read; the message says why.
    Failed(String),
    /// The clipboard held this text.
    Text(String),
}

/// The clipboard part of a snapshot.
#[derive(Debug, Clone)]
pub struct ClipResult {
    pub text: Option<String>,
    pub error: Option<String>,
}

/// The most characters of clipboard text a snapshot keeps.
pub const MAX_CLIP_CHARS: usize = 20000;

/// What a snapshot keeps of a clipboard read: text that is not all white space, cut
/// to its first `MAX_CLIP_CHARS` characters, or the reason the read failed.
pub fn read_clipboard(outcome: ClipboardRead) -> (r: ClipResult)
    ensures
        match outcome {
            ClipboardRead::Unavailable(e) => r.text is None && r.error is Some && r.error->0@
                == "clipboard unavailable: "@ + e@,
            ClipboardRead::Failed(e) => r.text is None && r.error is Some && r.error->0@
                == "clipboard read failed: "@ + e@,
            ClipboardRead::Text(t) => r.error is None && if trimmed(t@).len() == 0 {
                r.text is None
            } else {
                r.text is Some && r.text->0@ == t@.take(
                    if t@.len() < MAX_CLIP_CHARS {
                        t@.len() as int
                    } else {
                        MAX_CLIP_CHARS as int
                    },
                )
            },
        },
{
    match outcome {
        ClipboardRead::Unavailable(e) => {
            let mut msg = "clipboard unavailable: ".to_owned();
            msg.append(e.as_str());
            ClipResult { text: None, error: Some(msg) }
        },
        ClipboardRead::Failed(e) => {
            let mut msg = "clipboard read failed: ".to_owned();
            msg.append(e.as_str());
            ClipResult { text: None, error: Some(msg) }
        },
        ClipboardRead::Text(t) => {
            if trim(t.as_str()).as_str().is_empty() {
                ClipResult { text: None, error: None }
            } else {
                let cs = chars_of(t.as_str());
                let n = if cs.len() < MAX_CLIP_CHARS {
                    cs.len()
                } else {
                    MAX_CLIP_CHARS
                };
                let kept = string_of_range(&cs, 0, n);
                assert(cs@.subrange(0, n as int) =~= t@.take(n as int));
                ClipResult { text: Some(kept), error: None }
            }
        },
    }
}


/// The screenshot part of a snapshot: where the JPEG went, whether it is the small
/// placeholder written after a failure, why, and how many monitors were stitched.
#[derive(Debug, Clone)]
pub struct ShotResult {
    pub path: String,
    pub placeholder: bool,
    pub error: Option<String>,
    pub monitors: u32,
}

/// The record of a screenshot that failed: a placeholder at `path`, with `error`,
/// and no monitor.
pub fn write_placeholder(path: String, error: Option<String>) -> (r: ShotResult)
    ensures
        r.path@ == path@,
        r.placeholder,
        opt_chars(r.error) == opt_chars(error),
        r.monitors == 0,
{
    ShotResult { path, placeholder: true, error, monitors: 0 }
}

/// What one monitor gave when captured.
pub enum ScreenCapture {
    /// The monitor at `(x, y)` gave an RGBA image of `width` by `height` pixels.
    Image { x: i32, y: i32, width: u32, height: u32, rgba: Vec<u8> },
    /// The capture failed; the message says why.
    Failed(String),
}

/// `parts` joined with `sep` between them, as `[String]::join` gives it.
pub open spec fn joined(parts: Seq<Seq<char>>, sep: Seq<char>) -> Seq<char>
    decreases parts.len(),
{
    if parts.len() == 0 {
        Seq::empty()
    } else if parts.len() == 1 {
        parts[0]
    } else {
        joined(parts.drop_last(), sep) + sep + parts.last()
    }
}

/// The views of a list of strings.
pub open spec fn text_views(v: Seq<String>) -> Seq<Seq<char>> {
    v.map_values(|s: String| s@)
}

/// Joins `parts` with `sep`.
pub fn join_texts(parts: &Vec<String>, sep: &str) -> (r: String)
    ensures
        r@ == joined(text_views(parts@), sep@),
{
    let mut out = String::new();
    let mut i: usize = 0;
    let ghost views = text_views(parts@);
    assert(views.take(0) =~= Seq::<Seq<char>>::empty());
    while i < parts.len()
        invariant
            i <= parts@.len(),
            views == text_views(parts@),
            out@ == joined(views.take(i as int), sep@),
        decreases parts@.len() - i,
    {
        assert(views.take(i + 1).drop_last() =~= views.take(i as int));
        if i > 0 {
            out.append(sep);
        } else {
            assert(views.take(1).len() == 1);
        }
        out.append(parts[i].as_str());
        assert(views[i as int] == parts@[i as int]@);
        i = i + 1;
    }
    assert(views.take(parts@.len() as int) =~= views);
    out
}

/// The frame of a capture whose buffer matches its size, or the error that the
/// capture adds to the list.
pub open spec fn capture_outcome(c: ScreenCapture) -> Result<FrameView, Seq<char>> {
    match c {
        ScreenCapture::Image { x, y, width, height, rgba } => if rgba@.len() == width * height
            * 4 {
            Ok(FrameView { x, y, width, height, rgba: rgba@ })
        } else {
            Err("monitor "@ + decimal(width as nat) + "x"@ + decimal(height as nat)
                + " buffer size mismatch"@)
        },
        ScreenCapture::Failed(e) => Err("monitor capture failed: "@ + e@),
    }
}

/// The frames and the errors gathered from `captures`, in order.
pub open spec fn captures_scan(captures: Seq<ScreenCapture>) -> (Seq<FrameView>, Seq<Seq<char>>)
    decreases captures.len(),
{
    if captures.len() == 0 {
        (Seq::empty(), Seq::empty())
    } else {
        let (frames, errors) = captures_scan(captures.drop_last());
        match capture_outcome(captures.last()) {
            Ok(f) => (frames.push(f), errors),
            Err(e) => (frames, errors.push(e)),
        }
    }
}

/// The inputs on which checking the buffers does not overflow: every image has at
/// most `usize::MAX` bytes' worth of pixels.
pub open spec fn captures_in_range(captures: Seq<ScreenCapture>) -> bool {
    forall|k: int|
        0 <= k < captures.len() ==> (#[trigger] captures[k] matches ScreenCapture::Image {
            width,
            height,
            ..
        } ==> width * height * 4 <= usize::MAX)
}

/// Whether `captures` are ones `capture_all_monitors` can check without an
/// arithmetic overflow, which callers test before calling it.
pub fn captures_fit(captures: &Vec<ScreenCapture>) -> (r: bool)
    ensures
        r == captures_in_range(captures@),
{
    let mut i: usize = 0;
    while i < captures.len()
        invariant
            i <= captures@.len(),
            forall|k: int|
                0 <= k < i ==> (#[trigger] captures@[k] matches ScreenCapture::Image {
                    width,
                    height,
                    ..
                } ==> width * height * 4 <= usize::MAX),
        decreases captures@.len() - i,
    {
        match &captures[i] {
            ScreenCapture::Image { width, height, .. } => {
                let pixels = (*width as usize).checked_mul(*height as usize);
                let bytes = match pixels {
                    Some(p) => p.checked_mul(4),
                    None => None,
                };
                if bytes.is_none() {
                    proof {
                        if *width as usize * *height as usize <= usize::MAX {
                            assert(*width * *height * 4 > usize::MAX);
                        } else {
                            assert(*width * *height * 4 >= *width * *height) by (nonlinear_arith)
                                requires
                                    *width >= 0,
                                    *height >= 0,
                            ;
                        }
                    }
                    return false;
                }
            },
            ScreenCapture::Failed(_) => {},
        }
        i = i + 1;
    }
    true
}

/// The frames of every monitor whose capture worked and whose buffer matches its
/// size, in order, given what listing the screens gave and then what capturing each
/// gave; an error when the screens could not be listed, when there is no monitor, or
/// when no frame is left: then the errors, joined with `; `, or a note that every
/// capture was empty.
pub fn capture_all_monitors(screens: Result<Vec<ScreenCapture>, String>) -> (r: Result<Vec<MonitorFrame>, String>)
    requires
        screens matches Ok(captures) ==> captures_in_range(captures@),
    ensures
        screens matches Err(e) ==> r is Err && r->Err_0@ == "screen enum failed: "@ + e@,
        screens matches Ok(captures) ==> {
            &&& captures@.len() == 0 ==> r is Err && r->Err_0@
                == "screen enum returned zero displays"@
            &&& captures@.len() > 0 ==> match r {
                Ok(frames) => frame_views(frames@) == captures_scan(captures@).0 && frames@.len()
                    > 0,
                Err(e) => captures_scan(captures@).0.len() == 0 && e@ == if captures_scan(
                    captures@,
                ).1.len() == 0 {
                    "all monitor captures empty"@
                } else {
                    joined(captures_scan(captures@).1, "; "@)
                },
            }
        },
{
    let captures = match screens {
        Err(e) => {
            let mut msg = "screen enum failed: ".to_owned();
            msg.append(e.as_str());
            return Err(msg);
        },
        Ok(c) => c,
    };
    if captures.len() == 0 {
        return Err("screen enum returned zero displays".to_owned());
    }
    let mut frames: Vec<MonitorFrame> = Vec::new();
    let mut errors: Vec<String> = Vec::new();
    let mut i: usize = 0;
    assert(captures@.take(0) =~= Seq::<ScreenCapture>::empty());
    while i < captures.len()
        invariant
            i <= captures@.len(),
            captures_in_range(captures@),
            (frame_views(frames@), text_views(errors@)) == captures_scan(captures@.take(i as int)),
        decreases captures@.len() - i,
    {
        assert(captures@.take(i + 1).drop_last() =~= captures@.take(i as int));
        assert(captures@.take(i + 1).last() == captures@[i as int]);
        match &captures[i] {
            ScreenCapture::Image { x, y, width, height, rgba } => {
                let need = (*width as usize) * (*height as usize) * 4;
                if rgba.len() != need {
                    let mut msg = "monitor ".to_owned();
                    msg.append(decimal_text(*width as i64).as_str());
                    msg.append("x");
                    msg.append(decimal_text(*height as i64).as_str());
                    msg.append(" buffer size mismatch");
                    let ghost before = errors@;
                    errors.push(msg);
                    assert(text_views(errors@) =~= text_views(before).push(msg@));
                } else {
                    let ghost before = frames@;
                    let frame = MonitorFrame {
                        x: *x,
                        y: *y,
                        width: *width,
                        height: *height,
                        rgba: rgba.clone(),
                    };
                    frames.push(frame);
                    assert(frame_views(frames@) =~= frame_views(before).push(frame@));
                }
            },
            ScreenCapture::Failed(e) => {
                let mut msg = "monitor capture failed: ".to_owned();
                msg.append(e.as_str());
                let ghost before = errors@;
                errors.push(msg);
                assert(text_views(errors@) =~= text_views(before).push(msg@));
            },
        }
        i = i + 1;
    }
    assert(captures@.take(captures@.len() as int) =~= captures@);
    if frames.len() == 0 {
        if errors.len() == 0 {
            return Err("all monitor captures empty".to_owned());
        }
        return Err(join_texts(&errors, "; "));
    }
    Ok(frames)
}

/// How a screenshot ends once its frames are stitched or it failed: the stitched
/// canvas and the number of monitors it spans, or the error that a placeholder
/// records.
pub fn take_screenshot(captured: Result<Vec<MonitorFrame>, String>) -> (r: Result<(Canvas, u32), String>)
    requires
        captured matches Ok(frames) ==> stitch_in_range(frame_views(frames@)),
    ensures
        match captured {
            Err(e) => r is Err && r->Err_0@ == e@,
            Ok(frames) => if frames@.len() == 0 {
                r is Err && r->Err_0@ == "no monitors reported"@
            } else {
                match (r, stitched(frame_views(frames@))) {
                    (Ok((c, monitors)), Ok(expect)) => c.spec_width() == expect.0
                        && c.spec_height() == expect.1 && c.pixels() == expect.2 && monitors
                        == frames@.len() as u32,
                    (Err(e), Err(msg)) => e@ == msg,
                    _ => false,
                }
            },
        },
{
    match captured {
        Err(e) => Err(e),
        Ok(frames) => {
            if frames.len() == 0 {
                return Err("no monitors reported".to_owned());
            }
            let monitors = frames.len() as u32;
            match stitch_frames(frames.as_slice()) {
                Ok(canvas) => Ok((canvas, monitors)),
                Err(e) => Err(e),
            }
        },
    }
}

/// The record of a stitched screenshot after saving it to `path`: a real shot of
/// `monitors` monitors, or a placeholder when saving failed.
pub fn screenshot_saved(path: String, monitors: u32, saved: Result<(), String>) -> (r: ShotResult)
    ensures
        r.path@ == path@,
        match saved {
            Ok(()) => !r.placeholder && r.error is None && r.monitors == monitors,
            Err(e) => r.placeholder && r.monitors == 0 && r.error is Some && r.error->0@
                == "jpeg save failed: "@ + e@,
        },
{
    match saved {
        Ok(()) => ShotResult { path, placeholder: false, error: None, monitors },
        Err(e) => {
            let mut msg = "jpeg save failed: ".to_owned();
            msg.append(e.as_str());
            write_placeholder(path, Some(msg))
        },
    }
}


/// A snapshot records at most `MAX_APPS` applications, none with an empty name or the
/// name of a system process, each taken from the process list.
pub proof fn law_listed_apps_are_real(procs: Seq<ProcessEntry>, fg: Option<u32>)
    ensures
        ({
            let apps = apps_scan(procs, fg).0;
            &&& apps.len() <= MAX_APPS
            &&& forall|k: int|
                #![trigger apps[k]]
                0 <= k < apps.len() ==> {
                    &&& apps[k].name.len() > 0
                    &&& !noise_name(lowercase(apps[k].name))
                    &&& exists|j: int| 0 <= j < procs.len() && procs[j].pid == apps[k].pid
                        && procs[j].name@ == apps[k].name
                }
        }),
    decreases procs.len(),
{
    if procs.len() > 0 {
        let rest = procs.drop_last();
        law_listed_apps_are_real(rest, fg);
        let before = apps_scan(rest, fg).0;
        let apps = apps_scan(procs, fg).0;
        assert forall|k: int| 0 <= k < apps.len() implies exists|j: int|
            0 <= j < procs.len() && procs[j].pid == (#[trigger] apps[k]).pid && procs[j].name@
                == apps[k].name by {
            if k < before.len() {
                let j = choose|j: int|
                    0 <= j < rest.len() && rest[j].pid == before[k].pid && rest[j].name@ == before[k].name;
                assert(procs[j] == rest[j]);
            } else {
                assert(procs[procs.len() - 1] == procs.last());
            }
        }
    }
}

/// A snapshot leaves out the eight system processes `system`, `idle`, `registry`,
/// `smss.exe`, `csrss.exe`, `svchost.exe`, `wininit.exe` and `services.exe`, whatever
/// the case of their names, and processes without a name; while it lists fewer than
/// `MAX_APPS` applications, it lists every other process, by its id and name.
pub proof fn law_system_processes_left_out(procs: Seq<ProcessEntry>, fg: Option<u32>)
    ensures
        forall|k: int|
            #![trigger apps_scan(procs, fg).0[k]]
            0 <= k < apps_scan(procs, fg).0.len() ==> {
                let n = lowercase(apps_scan(procs, fg).0[k].name);
                &&& n != "system"@
                &&& n != "idle"@
                &&& n != "registry"@
                &&& n != "smss.exe"@
                &&& n != "csrss.exe"@
                &&& n != "svchost.exe"@
                &&& n != "wininit.exe"@
                &&& n != "services.exe"@
            },
        apps_scan(procs, fg).0.len() < MAX_APPS ==> forall|j: int|
            #![trigger procs[j]]
            0 <= j < procs.len() && procs[j].name@.len() > 0 && {
                let n = lowercase(procs[j].name@);
                &&& n != "system"@
                &&& n != "idle"@
                &&& n != "registry"@
                &&& n != "smss.exe"@
                &&& n != "csrss.exe"@
                &&& n != "svchost.exe"@
                &&& n != "wininit.exe"@
                &&& n != "services.exe"@
            } ==> exists|k: int|
                0 <= k < apps_scan(procs, fg).0.len() && (#[trigger] apps_scan(procs, fg).0[k]).pid
                    == procs[j].pid && apps_scan(procs, fg).0[k].name == procs[j].name@,
    decreases procs.len(),
{
    law_listed_apps_are_real(procs, fg);
    if procs.len() > 0 {
        let rest = procs.drop_last();
        law_system_processes_left_out(rest, fg);
        let before = apps_scan(rest, fg).0;
        let apps = apps_scan(procs, fg).0;
        if apps.len() < MAX_APPS {
            assert(before.len() <= apps.len());
            assert forall|j: int|
                #![trigger procs[j]]
                0 <= j < procs.len() && procs[j].name@.len() > 0 && {
                    let n = lowercase(procs[j].name@);
                    &&& n != "system"@
                    &&& n != "idle"@
                    &&& n != "registry"@
                    &&& n != "smss.exe"@
                    &&& n != "csrss.exe"@
                    &&& n != "svchost.exe"@
                    &&& n != "wininit.exe"@
                    &&& n != "services.exe"@
                } implies exists|k: int|
                0 <= k < apps.len() && (#[trigger] apps[k]).pid == procs[j].pid && apps[k].name
                    == procs[j].name@ by {
                if j < procs.len() - 1 {
                    assert(procs[j] == rest[j]);
                    let k = choose|k: int|
                        0 <= k < before.len() && (#[trigger] before[k]).pid == rest[j].pid
                            && before[k].name == rest[j].name@;
                    assert(apps[k] == before[k]);
                } else {
                    assert(procs[j] == procs.last());
                    assert(apps[apps.len() - 1].pid == procs.last().pid);
                }
            }
        }
    }
}

/// Whether frame `f` is capture `c` unchanged: `c` is an image whose buffer holds
/// four bytes for each of its `width * height` pixels, and `f` has its position, its
/// size and its bytes, field by field.
pub open spec fn kept_unchanged(c: ScreenCapture, f: FrameView) -> bool {
    match c {
        ScreenCapture::Image { x, y, width, height, rgba } => {
            &&& rgba@.len() == width * height * 4
            &&& f.x == x
            &&& f.y == y
            &&& f.width == width
            &&& f.height == height
            &&& f.rgba == rgba@
        },
        ScreenCapture::Failed(_) => false,
    }
}

/// Every frame kept from the captures is one of the captures unchanged, in their
/// order; every image whose buffer matches its size is kept; a failed capture or a
/// mismatched buffer gives no frame.
pub proof fn law_frames_are_captures_unchanged(captures: Seq<ScreenCapture>)
    ensures
        forall|k: int|
            #![trigger captures_scan(captures).0[k]]
            0 <= k < captures_scan(captures).0.len() ==> exists|j: int|
                0 <= j < captures.len() && kept_unchanged(
                    #[trigger] captures[j],
                    captures_scan(captures).0[k],
                ),
        forall|j: int|
            #![trigger captures[j]]
            0 <= j < captures.len() && (captures[j] matches ScreenCapture::Image {
                width,
                height,
                rgba,
                ..
            } && rgba@.len() == width * height * 4) ==> exists|k: int|
                0 <= k < captures_scan(captures).0.len() && kept_unchanged(
                    captures[j],
                    #[trigger] captures_scan(captures).0[k],
                ),
        captures_scan(captures).0.len() <= captures.len(),
    decreases captures.len(),
{
    if captures.len() > 0 {
        let rest = captures.drop_last();
        law_frames_are_captures_unchanged(rest);
        let before = captures_scan(rest).0;
        let fs = captures_scan(captures).0;
        let last = captures.last();
        assert(captures[captures.len() - 1] == last);
        assert forall|k: int| #![trigger fs[k]] 0 <= k < fs.len() implies exists|j: int|
            0 <= j < captures.len() && kept_unchanged(#[trigger] captures[j], fs[k]) by {
            if k < before.len() {
                assert(fs[k] == before[k]);
                let j = choose|j: int| 0 <= j < rest.len() && kept_unchanged(#[trigger] rest[j], before[k]);
                assert(captures[j] == rest[j]);
            } else {
                assert(kept_unchanged(captures[captures.len() - 1], fs[k]));
            }
        }
        assert forall|j: int|
            #![trigger captures[j]]
            0 <= j < captures.len() && (captures[j] matches ScreenCapture::Image {
                width,
                height,
                rgba,
                ..
            } && rgba@.len() == width * height * 4) implies exists|k: int|
            0 <= k < fs.len() && kept_unchanged(captures[j], #[trigger] fs[k]) by {
            if j < captures.len() - 1 {
                assert(captures[j] == rest[j]);
                let k = choose|k: int| 0 <= k < before.len() && kept_unchanged(rest[j], #[trigger] before[k]);
                assert(fs[k] == before[k]);
            } else {
                assert(kept_unchanged(captures[j], fs[fs.len() - 1]));
            }
        }
    }
}

/// Every frame kept from the captures has exactly four bytes per pixel, so it can be
/// stitched.
pub proof fn law_kept_frames_fit(captures: Seq<ScreenCapture>)
    ensures
        forall|k: int|
            #![trigger captures_scan(captures).0[k]]
            0 <= k < captures_scan(captures).0.len() ==> captures_scan(captures).0[k].rgba.len()
                == 4 * captures_scan(captures).0[k].width * captures_scan(captures).0[k].height
                && buffer_fits(captures_scan(captures).0[k]),
    decreases captures.len(),
{
    if captures.len() > 0 {
        law_kept_frames_fit(captures.drop_last());
        let before = captures_scan(captures.drop_last()).0;
        let fs = captures_scan(captures).0;
        assert forall|k: int| 0 <= k < fs.len() implies fs[k].rgba.len() == 4 * fs[k].width
            * fs[k].height && buffer_fits(#[trigger] fs[k]) by {
            if k < before.len() {
                assert(fs[k] == before[k]);
            } else {
                let f = fs[k];
                assert(f.width * f.height * 4 == 4 * f.width * f.height) by (nonlinear_arith);
            }
        }
    }
}

/// The frame drawn last is on top: wherever it lands, the canvas shows its pixels.
pub proof fn law_last_frame_on_top(fs: Seq<FrameView>, mx: int, my: int, px: int, py: int)
    requires
        fs.len() > 0,
        covers(fs.last(), fs.last().x - mx, fs.last().y - my, px, py),
    ensures
        stitched_pixel(fs, mx, my, px, py) == pixel_in(
            fs.last().rgba,
            fs.last().width as int,
            4,
            px - (fs.last().x - mx),
            py - (fs.last().y - my),
        ),
{
}

/// The stitched desktop spans every frame: each frame lies right of and below the
/// top-left corner, and a frame whose edges stay within `i32` range ends within the
/// desktop's width and height.
pub proof fn law_desktop_spans_every_frame(fs: Seq<FrameView>, k: int)
    requires
        0 <= k < fs.len(),
    ensures
        fs[k].x - least_x(fs) >= 0,
        fs[k].y - least_y(fs) >= 0,
        fs[k].x + fs[k].width <= i32::MAX ==> fs[k].x - least_x(fs) + fs[k].width
            <= desktop_width(fs),
        fs[k].y + fs[k].height <= i32::MAX ==> fs[k].y - least_y(fs) + fs[k].height
            <= desktop_height(fs),
{
    lemma_bounds(fs, k);
}

proof fn lemma_later_frames_skip(fs: Seq<FrameView>, k: int, mx: int, my: int, px: int, py: int)
    requires
        0 <= k < fs.len(),
        forall|j: int|
            #![trigger fs[j]]
            k < j < fs.len() ==> !covers(fs[j], fs[j].x - mx, fs[j].y - my, px, py),
    ensures
        stitched_pixel(fs, mx, my, px, py) == stitched_pixel(fs.take(k + 1), mx, my, px, py),
    decreases fs.len(),
{
    if fs.len() == k + 1 {
        assert(fs.take(k + 1) =~= fs);
    } else {
        let rest = fs.drop_last();
        assert(fs[fs.len() - 1] == fs.last());
        assert forall|j: int| #![trigger rest[j]] k < j < rest.len() implies !covers(
            rest[j],
            rest[j].x - mx,
            rest[j].y - my,
            px,
            py,
        ) by {
            assert(rest[j] == fs[j]);
        }
        lemma_later_frames_skip(rest, k, mx, my, px, py);
        assert(rest.take(k + 1) =~= fs.take(k + 1));
    }
}

/// Stitching copies each monitor as it is: source pixel `(x, y)` of frame `k`, whose
/// four bytes start at `4 * (y * width + x)` in its buffer, lands on canvas pixel
/// `(x, y)` plus the frame's offset from the desktop's top-left corner, with its
/// first three bytes as red, green and blue, unless a later frame covers that pixel.
pub proof fn law_stitch_copies_each_pixel(fs: Seq<FrameView>, k: int, x: int, y: int)
    requires
        0 <= k < fs.len(),
        0 <= x < fs[k].width,
        0 <= y < fs[k].height,
        forall|j: int|
            #![trigger fs[j]]
            k < j < fs.len() ==> !(fs[j].x <= fs[k].x + x < fs[j].x + fs[j].width && fs[j].y
                <= fs[k].y + y < fs[j].y + fs[j].height),
    ensures
        stitched(fs) matches Ok(c) ==> (fs[k].x - least_x(fs) + x < c.0 && fs[k].y - least_y(fs)
            + y < c.1 ==> c.2[(fs[k].x - least_x(fs) + x, fs[k].y - least_y(fs) + y)] == (
            fs[k].rgba[4 * (y * fs[k].width + x)],
            fs[k].rgba[4 * (y * fs[k].width + x) + 1],
            fs[k].rgba[4 * (y * fs[k].width + x) + 2],
        )),
{
    let mx = least_x(fs);
    let my = least_y(fs);
    let px = fs[k].x - mx + x;
    let py = fs[k].y - my + y;
    lemma_bounds(fs, k);
    lemma_later_frames_skip(fs, k, mx, my, px, py);
    let head = fs.take(k + 1);
    assert(head.last() == fs[k]);
    assert(head.len() > 0);
    assert((y * fs[k].width + x) * 4 == 4 * (y * fs[k].width + x));
}

/// A pixel that no frame covers keeps the background colour.
pub proof fn law_uncovered_is_background(fs: Seq<FrameView>, mx: int, my: int, px: int, py: int)
    requires
        forall|k: int| 0 <= k < fs.len() ==> !covers(#[trigger] fs[k], fs[k].x - mx, fs[k].y - my, px, py),
    ensures
        stitched_pixel(fs, mx, my, px, py) == BACKGROUND,
    decreases fs.len(),
{
    if fs.len() > 0 {
        let rest = fs.drop_last();
        assert forall|k: int| 0 <= k < rest.len() implies !covers(#[trigger] rest[k], rest[k].x - mx, rest[k].y - my, px, py) by {
            assert(rest[k] == fs[k]);
        }
        assert(fs[fs.len() - 1] == fs.last());
        law_uncovered_is_background(rest, mx, my, px, py);
    }
}

} // verus!
