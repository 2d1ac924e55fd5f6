//! A software rasterizer: the framebuffer, the clip rectangle, and the walk over the
//! pixels of a triangle.
//!
//! The clip answers how little may be painted. The damage says that nothing else has
//! changed, and that presupposes that the rest is still on screen. In the first frame
//! of a window, and after every resize, it is not: the framebuffer has just been made.
//! The clip is then suspended, and everything is painted.

use crate::single::{Rgba, EPSILON_BITS, F32, MINUS_MILLIONTH_BITS, ONE_BITS, OPAQUE_FROM_BITS};
use crate::single;
use crate::text;
use vstd::prelude::*;

verus! {

/// A rectangle `(x0, y0, x1, y1)` in device pixels, without its right and bottom edge.
pub type ClipRect = (i32, i32, i32, i32);

/// What decides which part of a frame is painted.
#[derive(Clone, Copy, Debug, PartialEq, Eq)]
pub struct ClipState {
    /// There is no earlier frame to keep, so nothing may be left out.
    pub suspended: bool,
    /// The rectangle that the environment asks for.
    pub forced: Option<ClipRect>,
    /// The damage of the frame; none for the whole screen.
    pub damage: Option<ClipRect>,
}

/// The numerals among some pieces of text, spaces around them allowed.
pub open spec fn numerals(pieces: Seq<Seq<char>>) -> Seq<int>
    decreases pieces.len(),
{
    if pieces.len() == 0 {
        Seq::empty()
    } else {
        match text::i32_value(text::trimmed(pieces.last())) {
            Some(n) => numerals(pieces.drop_last()).push(n),
            None => numerals(pieces.drop_last()),
        }
    }
}

/// The rectangle that a text of the form `x,y,w,h` denotes.
pub open spec fn clip_of(raw: Seq<char>) -> Option<(int, int, int, int)> {
    let n = numerals(text::pieces(raw, ','));
    if n.len() == 4 {
        Some((n[0], n[1], n[0] + n[2], n[1] + n[3]))
    } else {
        None
    }
}

/// Whether the far corner of the rectangle that a text denotes can be represented.
pub open spec fn clip_fits(raw: Seq<char>) -> bool {
    match clip_of(raw) {
        Some((_, _, x1, y1)) => i32::MIN <= x1 <= i32::MAX && i32::MIN <= y1 <= i32::MAX,
        None => true,
    }
}

/// The numerals of a text of the form `a,b,c`, spaces around them allowed.
fn read_numerals(raw: &str) -> (r: Vec<i32>)
    ensures
        r@.len() == numerals(text::pieces(raw@, ',')).len(),
        forall|i: int| 0 <= i < r@.len() ==> r@[i] == numerals(text::pieces(raw@, ','))[i],
{
    let cs = text::chars_of(raw);
    let parts = text::split_chars(&cs, ',');
    let ghost want = text::pieces(raw@, ',');
    let mut out: Vec<i32> = Vec::new();
    let mut i: usize = 0;
    assert(want.take(0) =~= Seq::<Seq<char>>::empty());
    while i < parts.len()
        invariant
            i <= parts@.len(),
            parts@.len() == want.len(),
            forall|j: int| 0 <= j < parts@.len() ==> #[trigger] parts@[j]@ == want[j],
            out@.len() == numerals(want.take(i as int)).len(),
            forall|j: int| 0 <= j < out@.len() ==> out@[j] == numerals(want.take(i as int))[j],
        decreases parts@.len() - i,
    {
        proof {
            assert(want.take(i + 1).drop_last() =~= want.take(i as int));
            assert(want.take(i + 1).last() == parts@[i as int]@);
        }
        let trimmed = text::trim_chars(&parts[i]);
        match text::parse_i32(&trimmed) {
            Some(n) => out.push(n),
            None => {},
        }
        i = i + 1;
    }
    assert(want.take(i as int) =~= want);
    out
}

/// Whether [`ClipState::new`] can read a text: it denotes no rectangle whose far corner
/// is out of range.
pub fn clip_text_fits(raw: &str) -> (r: bool)
    ensures
        r == clip_fits(raw@),
{
    let n = read_numerals(raw);
    if n.len() != 4 {
        return true;
    }
    n[0].checked_add(n[2]).is_some() && n[1].checked_add(n[3]).is_some()
}

impl ClipState {
    /// The rectangle that is painted; none for the whole screen.
    pub open spec fn rect(self) -> Option<ClipRect> {
        if self.suspended {
            None
        } else if self.forced is Some {
            self.forced
        } else {
            self.damage
        }
    }

    /// The state before the first frame, given what the environment says.
    pub fn new(setting: Option<&str>) -> (r: ClipState)
        requires
            setting matches Some(raw) ==> clip_fits(raw@),
        ensures
            !r.suspended,
            r.damage is None,
            match setting {
                Some(raw) => match (clip_of(raw@), r.forced) {
                    (Some(c), Some(f)) => f.0 == c.0 && f.1 == c.1 && f.2 == c.2 && f.3 == c.3,
                    (None, None) => true,
                    _ => false,
                },
                None => r.forced is None,
            },
    {
        let forced: Option<ClipRect> = match setting {
            None => None,
            Some(raw) => {
                let n = read_numerals(raw);
                if n.len() != 4 {
                    None
                } else {
                    Some((n[0], n[1], n[0] + n[2], n[1] + n[3]))
                }
            },
        };
        ClipState { suspended: false, forced, damage: None }
    }
}

/// Switches the suspension of the clip on or off, as the renderer decides whether the
/// framebuffer of the window is reused or new.
pub fn set_clip_suspended(state: &mut ClipState, suspended: bool)
    ensures
        *final(state) == (ClipState { suspended, ..*old(state) }),
{
    state.suspended = suspended;
}

/// Publishes the damage of the frame.
pub fn set_damage_rect(state: &mut ClipState, damage: Option<ClipRect>)
    ensures
        *final(state) == (ClipState { damage, ..*old(state) }),
{
    state.damage = damage;
}

/// The rectangle that is painted, or none to paint everything. While the clip is
/// suspended it is none, whatever else was asked for.
pub fn headless_clip_rect(state: &ClipState) -> (r: Option<ClipRect>)
    ensures
        r == state.rect(),
{
    if state.suspended {
        None
    } else {
        match state.forced {
            Some(c) => Some(c),
            None => state.damage,
        }
    }
}

/// The pixels of a window: colours with premultiplied alpha, and depths.
pub struct Framebuffer {
    pub width: usize,
    pub height: usize,
    pub color: Vec<Rgba>,
    pub depth: Vec<F32>,
}

/// A colour as four bytes, alpha not premultiplied.
#[derive(Clone, Copy, Debug, PartialEq, Eq, Structural)]
pub struct Rgba8 {
    pub r: u8,
    pub g: u8,
    pub b: u8,
    pub a: u8,
}

/// `n` values, all equal to `value`.
fn filled<T: Copy>(value: T, n: usize) -> (r: Vec<T>)
    ensures
        r@ == Seq::new(n as nat, |i: int| value),
{
    let mut v: Vec<T> = Vec::new();
    let mut i: usize = 0;
    while i < n
        invariant
            i <= n,
            v@ == Seq::new(i as nat, |j: int| value),
        decreases n - i,
    {
        v.push(value);
        i = i + 1;
        assert(v@ =~= Seq::new(i as nat, |j: int| value));
    }
    v
}

/// Sets every value to `value`.
fn fill<T: Copy>(v: &mut Vec<T>, value: T)
    ensures
        final(v)@ == Seq::new(old(v)@.len(), |i: int| value),
{
    let n: usize = v.len();
    let mut i: usize = 0;
    while i < n
        invariant
            i <= n,
            n == v@.len(),
            n == old(v)@.len(),
            forall|j: int| 0 <= j < i ==> v@[j] == value,
        decreases n - i,
    {
        v[i] = value;
        i = i + 1;
    }
    assert(v@ =~= Seq::new(old(v)@.len(), |i: int| value));
}

/// The row of the pixel at `index`, in rows of `width` pixels.
#[verifier::opaque]
pub open spec fn row(index: int, width: int) -> int {
    index / width
}

/// The column of the pixel at `index`, in rows of `width` pixels.
#[verifier::opaque]
pub open spec fn column(index: int, width: int) -> int {
    index % width
}

/// Leaving out some rows in front moves a pixel up by as many rows.
pub proof fn lemma_shifted_index(index: int, width: int, rows: int)
    requires
        width > 0,
        0 <= rows * width <= index,
    ensures
        column(index - rows * width, width) == column(index, width),
        row(index - rows * width, width) == row(index, width) - rows,
{
    reveal(row);
    reveal(column);
    let (q, r) = (index / width, index % width);
    assert(index - rows * width == (q - rows) * width + r && 0 <= r < width) by (nonlinear_arith)
        requires
            width > 0,
            q == index / width,
            r == index % width,
    ;
    vstd::arithmetic::div_mod::lemma_fundamental_div_mod_converse(
        index - rows * width,
        width,
        q - rows,
        r,
    );
}

/// Whether the pixel at `index` in rows of `width` pixels lies in the rectangle.
pub open spec fn index_in(index: int, width: int, clip: ClipRect) -> bool {
    clip.0 <= column(index, width) < clip.2 && clip.1 <= row(index, width) < clip.3
}

/// What is left of `limit` under a signed bound: none of it below zero.
pub open spec fn bounded(v: i32, limit: int) -> int {
    if v <= 0 {
        0
    } else if v <= limit {
        v as int
    } else {
        limit
    }
}

fn bound(v: i32, limit: usize) -> (r: usize)
    ensures
        r == bounded(v, limit as int),
{
    if v <= 0 {
        0
    } else if v as u32 as u64 <= limit as u64 {
        v as usize
    } else {
        limit
    }
}

/// A pixel is found again by its row and its column.
pub proof fn lemma_row_and_column(x: int, y: int, width: int)
    requires
        0 <= x < width,
        0 <= y,
    ensures
        row(y * width + x, width) == y,
        column(y * width + x, width) == x,
{
    reveal(row);
    reveal(column);
    vstd::arithmetic::div_mod::lemma_fundamental_div_mod_converse(y * width + x, width, y, x);
}

/// Every pixel has a row and a column.
pub proof fn lemma_index_splits(index: int, width: int, height: int)
    requires
        0 <= index < width * height,
        0 <= width,
    ensures
        width > 0,
        index == row(index, width) * width + column(index, width),
        0 <= column(index, width) < width,
        0 <= row(index, width) < height,
{
    reveal(row);
    reveal(column);
    assert(width > 0) by (nonlinear_arith)
        requires
            0 <= index < width * height,
            0 <= width,
    ;
    vstd::arithmetic::div_mod::lemma_fundamental_div_mod(index, width);
    assert((index / width) * width == width * (index / width)) by (nonlinear_arith);
    assert(index / width < height) by (nonlinear_arith)
        requires
            index == width * (index / width) + index % width,
            0 <= index % width,
            index < width * height,
            width > 0,
    ;
    assert(0 <= index / width) by (nonlinear_arith)
        requires
            0 <= index,
            width > 0,
    ;
}

/// A pixel in the grid has an index in it.
pub proof fn lemma_index_in_range(x: int, y: int, width: int, height: int)
    requires
        0 <= x < width,
        0 <= y < height,
    ensures
        0 <= y * width + x < width * height,
{
    assert(0 <= y * width + x < width * height) by (nonlinear_arith)
        requires
            0 <= x < width,
            0 <= y < height,
    ;
}

impl Framebuffer {
    /// Whether there is one colour and one depth for each pixel, and the bytes of the
    /// colours can be counted.
    pub open spec fn wf(&self) -> bool {
        &&& self.color@.len() == self.width * self.height
        &&& self.depth@.len() == self.width * self.height
        &&& self.width * self.height * 16 <= isize::MAX
    }

    /// A framebuffer of clear pixels at depth one.
    pub fn new(width: usize, height: usize) -> (r: Framebuffer)
        requires
            width * height * 16 <= isize::MAX,
        ensures
            r.wf(),
            r.width == width,
            r.height == height,
            forall|i: int|
                0 <= i < width * height ==> r.color@[i] == single::clear_colour() && r.depth@[i]
                    == single::of_bits(ONE_BITS),
    {
        assert(0 <= width * height) by (nonlinear_arith);
        let pixels: usize = width * height;
        let zero = F32 { bits: 0 };
        Framebuffer {
            width,
            height,
            color: filled(Rgba { r: zero, g: zero, b: zero, a: zero }, pixels),
            depth: filled(F32 { bits: ONE_BITS }, pixels),
        }
    }

    /// Sets every pixel.
    pub fn clear(&mut self, color: Rgba, depth: F32)
        ensures
            final(self).width == old(self).width,
            final(self).height == old(self).height,
            final(self).color@ == Seq::new(old(self).color@.len(), |i: int| color),
            final(self).depth@ == Seq::new(old(self).depth@.len(), |i: int| depth),
            old(self).wf() ==> final(self).wf(),
    {
        fill(&mut self.color, color);
        fill(&mut self.depth, depth);
    }

    /// Sets the pixels of a rectangle, and no others.
    pub fn clear_rect(&mut self, color: Rgba, depth: F32, x0: i32, y0: i32, x1: i32, y1: i32)
        requires
            old(self).wf(),
        ensures
            final(self).wf(),
            final(self).width == old(self).width,
            final(self).height == old(self).height,
            forall|i: int|
                0 <= i < final(self).color@.len() ==> #[trigger] final(self).color@[i]
                    == if index_in(i, old(self).width as int, (x0, y0, x1, y1)) {
                    color
                } else {
                    old(self).color@[i]
                },
            forall|i: int|
                0 <= i < final(self).depth@.len() ==> #[trigger] final(self).depth@[i]
                    == if index_in(i, old(self).width as int, (x0, y0, x1, y1)) {
                    depth
                } else {
                    old(self).depth@[i]
                },
    {
        let w: usize = self.width;
        let h: usize = self.height;
        let window = Window {
            left: bound(x0, w),
            top: bound(y0, h),
            right: bound(x1, w),
            bottom: bound(y1, h),
        };
        let ghost before = *self;
        let mut y: usize = window.top;
        while y < window.bottom
            invariant
                self.wf(),
                before.wf(),
                w == self.width == before.width,
                h == self.height == before.height,
                window.top <= y,
                y <= window.bottom || y == window.top,
                window.bottom <= h,
                window.right <= w,
                set_up_to(self.color@, before.color@, color, w as int, window, window.left, y),
                set_up_to(self.depth@, before.depth@, depth, w as int, window, window.left, y),
            decreases window.bottom - y,
        {
            let mut x: usize = window.left;
            while x < window.right
                invariant
                    self.wf(),
                    before.wf(),
                    w == self.width == before.width,
                    h == self.height == before.height,
                    window.left <= x,
                    x <= window.right || x == window.left,
                    window.right <= w,
                    y < h,
                    set_up_to(self.color@, before.color@, color, w as int, window, x, y),
                    set_up_to(self.depth@, before.depth@, depth, w as int, window, x, y),
                decreases window.right - x,
            {
                proof {
                    lemma_index_in_range(x as int, y as int, w as int, h as int);
                    assert(0 <= y * w) by (nonlinear_arith);
                    lemma_set_one(
                        self.color@,
                        before.color@,
                        color,
                        w as int,
                        h as int,
                        window,
                        x,
                        y,
                    );
                    lemma_set_one(
                        self.depth@,
                        before.depth@,
                        depth,
                        w as int,
                        h as int,
                        window,
                        x,
                        y,
                    );
                }
                let index: usize = y * w + x;
                self.color[index] = color;
                self.depth[index] = depth;
                x = x + 1;
            }
            y = y + 1;
        }
        proof {
            let clip = (x0, y0, x1, y1);
            lemma_window_is_clip(self.color@.len() as int, w as int, h as int, window, clip, y);
        }
    }
}

/// A rectangle of pixels inside a framebuffer.
#[derive(Clone, Copy, Debug, PartialEq, Eq, Structural)]
pub struct Window {
    pub left: usize,
    pub top: usize,
    pub right: usize,
    pub bottom: usize,
}

/// Whether the pixel at `index` is one of those that a walk over the rows of `window`
/// has passed when it stands at (`x`, `y`).
spec fn passed(index: int, width: int, window: Window, x: usize, y: usize) -> bool {
    ||| window.left <= column(index, width) < window.right && window.top <= row(index, width) < y
    ||| window.left <= column(index, width) < x && row(index, width) == y
}

/// Whether the pixels that a walk has passed are set to `value`, and the others are as
/// they were.
spec fn set_up_to<T>(
    now: Seq<T>,
    before: Seq<T>,
    value: T,
    width: int,
    window: Window,
    x: usize,
    y: usize,
) -> bool {
    now.len() == before.len() && forall|i: int|
        0 <= i < now.len() ==> #[trigger] now[i] == if passed(i, width, window, x, y) {
            value
        } else {
            before[i]
        }
}

proof fn lemma_set_one<T>(
    now: Seq<T>,
    before: Seq<T>,
    value: T,
    width: int,
    height: int,
    window: Window,
    x: usize,
    y: usize,
)
    requires
        set_up_to(now, before, value, width, window, x, y),
        now.len() == width * height,
        window.left <= x < width,
        y < height,
        x < usize::MAX,
    ensures
        set_up_to(
            now.update(y * width + x, value),
            before,
            value,
            width,
            window,
            (x + 1) as usize,
            y,
        ),
{
    let index = y * width + x;
    lemma_index_in_range(x as int, y as int, width, height);
    lemma_row_and_column(x as int, y as int, width);
    let later = now.update(index, value);
    assert forall|i: int| 0 <= i < later.len() implies #[trigger] later[i] == if passed(
        i,
        width,
        window,
        (x + 1) as usize,
        y,
    ) {
        value
    } else {
        before[i]
    } by {
        lemma_index_splits(i, width, height);
        assert(i != index ==> later[i] == now[i]);
    }
}

/// After the last row of a window that was cut out of a clip rectangle, the walk has
/// passed exactly the pixels of the rectangle.
proof fn lemma_window_is_clip(
    len: int,
    width: int,
    height: int,
    window: Window,
    clip: ClipRect,
    y: usize,
)
    requires
        len == width * height,
        0 <= width,
        window.left == bounded(clip.0, width),
        window.top == bounded(clip.1, height),
        window.right == bounded(clip.2, width),
        window.bottom == bounded(clip.3, height),
        y >= window.bottom,
        y == window.bottom || y == window.top,
    ensures
        forall|i: int|
            0 <= i < len ==> #[trigger] passed(i, width, window, window.left, y) == index_in(
                i,
                width,
                clip,
            ),
{
    assert forall|i: int| 0 <= i < len implies #[trigger] passed(i, width, window, window.left, y)
        == index_in(i, width, clip) by {
        lemma_index_splits(i, width, height);
    }
}

/// The four bytes of the pixel at `index`.
pub open spec fn pixel_at(bytes: Seq<u8>, index: int) -> Rgba8 {
    Rgba8 {
        r: bytes[index * 4],
        g: bytes[index * 4 + 1],
        b: bytes[index * 4 + 2],
        a: bytes[index * 4 + 3],
    }
}

/// Whether the pixel at `index` is shown anew: it lies in the clip rectangle, or there
/// is none.
pub open spec fn shown(index: int, width: int, clip: Option<ClipRect>) -> bool {
    match clip {
        Some(c) => index_in(index, width, c),
        None => true,
    }
}

/// What a byte buffer holds before pixels are written to it: what it held, if it has
/// the right size, and otherwise zeros.
pub open spec fn prepared(bytes: Seq<u8>, size: int) -> Seq<u8> {
    if bytes.len() == size {
        bytes
    } else {
        Seq::new(size as nat, |i: int| 0u8)
    }
}

/// Whether the pixels that a walk has passed are converted, and the others are as they
/// were.
spec fn converted_up_to<F: Fn(Rgba) -> Rgba8>(
    now: Seq<u8>,
    before: Seq<u8>,
    colors: Seq<Rgba>,
    convert: F,
    width: int,
    window: Window,
    x: usize,
    y: usize,
) -> bool {
    &&& now.len() == before.len() == colors.len() * 4
    &&& forall|i: int|
        0 <= i < colors.len() ==> if passed(i, width, window, x, y) {
            call_ensures(convert, (colors[i],), #[trigger] pixel_at(now, i))
        } else {
            pixel_at(now, i) == pixel_at(before, i)
        }
}

proof fn lemma_convert_one<F: Fn(Rgba) -> Rgba8>(
    now: Seq<u8>,
    later: Seq<u8>,
    before: Seq<u8>,
    colors: Seq<Rgba>,
    convert: F,
    width: int,
    height: int,
    window: Window,
    x: usize,
    y: usize,
)
    requires
        converted_up_to(now, before, colors, convert, width, window, x, y),
        colors.len() == width * height,
        window.left <= x < width,
        y < height,
        x < usize::MAX,
        later.len() == now.len(),
        forall|j: int|
            0 <= j < later.len() && !((y * width + x) * 4 <= j < (y * width + x) * 4 + 4)
                ==> later[j] == now[j],
        call_ensures(convert, (colors[y * width + x],), pixel_at(later, y * width + x)),
    ensures
        converted_up_to(
            later,
            before,
            colors,
            convert,
            width,
            window,
            (x + 1) as usize,
            y,
        ),
{
    let index = y * width + x;
    lemma_index_in_range(x as int, y as int, width, height);
    lemma_row_and_column(x as int, y as int, width);
    assert forall|i: int| 0 <= i < colors.len() implies if passed(
        i,
        width,
        window,
        (x + 1) as usize,
        y,
    ) {
        call_ensures(convert, (colors[i],), #[trigger] pixel_at(later, i))
    } else {
        pixel_at(later, i) == pixel_at(before, i)
    } by {
        lemma_index_splits(i, width, height);
        if i != index {
            assert(pixel_at(later, i) == pixel_at(now, i));
        }
    }
}

impl Framebuffer {
    /// Writes the bytes of the pixels in the clip rectangle to `out`. What lies outside
    /// of it is left as it is: `out` is kept from frame to frame, and it is just what
    /// need not be touched again.
    pub fn to_rgba8_into<F: Fn(Rgba) -> Rgba8>(
        &self,
        out: &mut Vec<u8>,
        clip: Option<ClipRect>,
        convert: &F,
    )
        requires
            self.wf(),
            forall|c: Rgba| call_requires(*convert, (c,)),
        ensures
            bytes_written(*self, clip, *convert, old(out)@, final(out)@),
    {
        let w: usize = self.width;
        let h: usize = self.height;
        assert(0 <= w * h) by (nonlinear_arith);
        let needed: usize = w * h * 4;
        if out.len() != needed {
            out.clear();
            out.resize(needed, 0);
            assert(out@ =~= prepared(old(out)@, needed as int));
        }
        let ghost before = out@;
        let window = match clip {
            Some(c) => Window {
                left: bound(c.0, w),
                top: bound(c.1, h),
                right: bound(c.2, w),
                bottom: bound(c.3, h),
            },
            None => Window { left: 0, top: 0, right: w, bottom: h },
        };
        let mut y: usize = window.top;
        while y < window.bottom
            invariant
                self.wf(),
                forall|c: Rgba| call_requires(*convert, (c,)),
                w == self.width,
                h == self.height,
                window.top <= y,
                y <= window.bottom || y == window.top,
                window.bottom <= h,
                window.right <= w,
                converted_up_to(
                    out@,
                    before,
                    self.color@,
                    *convert,
                    w as int,
                    window,
                    window.left,
                    y,
                ),
            decreases window.bottom - y,
        {
            let mut x: usize = window.left;
            while x < window.right
                invariant
                    self.wf(),
                    forall|c: Rgba| call_requires(*convert, (c,)),
                    w == self.width,
                    h == self.height,
                    window.left <= x,
                    x <= window.right || x == window.left,
                    window.right <= w,
                    y < h,
                    converted_up_to(out@, before, self.color@, *convert, w as int, window, x, y),
                decreases window.right - x,
            {
                proof {
                    lemma_index_in_range(x as int, y as int, w as int, h as int);
                    assert(0 <= y * w) by (nonlinear_arith);
                }
                let index: usize = y * w + x;
                let p: Rgba8 = convert(self.color[index]);
                let base: usize = index * 4;
                let ghost now = out@;
                out[base] = p.r;
                out[base + 1] = p.g;
                out[base + 2] = p.b;
                out[base + 3] = p.a;
                proof {
                    assert(pixel_at(out@, index as int) == p);
                    lemma_convert_one(
                        now,
                        out@,
                        before,
                        self.color@,
                        *convert,
                        w as int,
                        h as int,
                        window,
                        x,
                        y,
                    );
                }
                x = x + 1;
            }
            y = y + 1;
        }
        proof {
            match clip {
                Some(c) => {
                    lemma_window_is_clip(w * h, w as int, h as int, window, c, y);
                },
                None => {
                    assert forall|i: int| 0 <= i < w * h implies passed(
                        i,
                        w as int,
                        window,
                        window.left,
                        y,
                    ) by {
                        lemma_index_splits(i, w as int, h as int);
                    }
                },
            }
        }
    }

    /// The bytes of all pixels.
    pub fn to_rgba8<F: Fn(Rgba) -> Rgba8>(&self, convert: &F) -> (r: Vec<u8>)
        requires
            self.wf(),
            forall|c: Rgba| call_requires(*convert, (c,)),
        ensures
            bytes_given(*self, *convert, r@),
    {
        let mut out: Vec<u8> = Vec::new();
        self.to_rgba8_into(&mut out, None, convert);
        out
    }
}

/// Whether the bytes of a colour depend on nothing but the colour.
pub open spec fn converts_purely<F: Fn(Rgba) -> Rgba8>(convert: F) -> bool {
    forall|c: Rgba, p: Rgba8, q: Rgba8|
        #[trigger] call_ensures(convert, (c,), p) && #[trigger] call_ensures(convert, (c,), q)
            ==> p == q
}

/// Bytes that were converted from the same colours are the same.
pub proof fn lemma_same_pixels_same_bytes<F: Fn(Rgba) -> Rgba8>(
    colors: Seq<Rgba>,
    count: int,
    convert: F,
    a: Seq<u8>,
    b: Seq<u8>,
)
    requires
        converts_purely(convert),
        0 <= count,
        a.len() == count * 4,
        b.len() == count * 4,
        forall|i: int|
            0 <= i < count ==> call_ensures(convert, (colors[i],), #[trigger] pixel_at(a, i)),
        forall|i: int|
            0 <= i < count ==> call_ensures(convert, (colors[i],), #[trigger] pixel_at(b, i)),
    ensures
        a == b,
{
    assert forall|k: int| 0 <= k < a.len() implies a[k] == b[k] by {
        let i = k / 4;
        assert(call_ensures(convert, (colors[i],), pixel_at(a, i)));
        assert(call_ensures(convert, (colors[i],), pixel_at(b, i)));
        assert(pixel_at(a, i) == pixel_at(b, i));
        assert(k == i * 4 || k == i * 4 + 1 || k == i * 4 + 2 || k == i * 4 + 3);
    }
    assert(a =~= b);
}

/// Whether `bytes` are what `to_rgba8_into` makes of `before`.
pub open spec fn bytes_written<F: Fn(Rgba) -> Rgba8>(
    fb: Framebuffer,
    clip: Option<ClipRect>,
    convert: F,
    before: Seq<u8>,
    bytes: Seq<u8>,
) -> bool {
    &&& bytes.len() == fb.width * fb.height * 4
    &&& forall|i: int|
        0 <= i < fb.width * fb.height ==> if shown(i, fb.width as int, clip) {
            call_ensures(convert, (fb.color@[i],), #[trigger] pixel_at(bytes, i))
        } else {
            pixel_at(bytes, i) == pixel_at(prepared(before, fb.width * fb.height * 4), i)
        }
}

/// Whether `bytes` are what `to_rgba8` gives.
pub open spec fn bytes_given<F: Fn(Rgba) -> Rgba8>(
    fb: Framebuffer,
    convert: F,
    bytes: Seq<u8>,
) -> bool {
    &&& bytes.len() == fb.width * fb.height * 4
    &&& forall|i: int|
        0 <= i < fb.width * fb.height ==> call_ensures(
            convert,
            (fb.color@[i],),
            #[trigger] pixel_at(bytes, i),
        )
}

/// The two conversions agree. Without a clip, writing the bytes over others gives just
/// what making them anew gives. With one, the pixels in it are those that making all of
/// them anew gives, and the others are untouched.
pub proof fn law_the_conversions_agree<F: Fn(Rgba) -> Rgba8>(
    fb: Framebuffer,
    clip: Option<ClipRect>,
    convert: F,
    before: Seq<u8>,
    written: Seq<u8>,
    given: Seq<u8>,
)
    requires
        converts_purely(convert),
        bytes_written(fb, clip, convert, before, written),
        bytes_given(fb, convert, given),
    ensures
        clip is None ==> written == given,
        forall|i: int|
            0 <= i < fb.width * fb.height ==> #[trigger] pixel_at(written, i) == if shown(
                i,
                fb.width as int,
                clip,
            ) {
                pixel_at(given, i)
            } else {
                pixel_at(prepared(before, fb.width * fb.height * 4), i)
            },
{
    assert(0 <= fb.width * fb.height) by (nonlinear_arith);
    assert forall|i: int| 0 <= i < fb.width * fb.height implies #[trigger] pixel_at(written, i)
        == if shown(i, fb.width as int, clip) {
        pixel_at(given, i)
    } else {
        pixel_at(prepared(before, fb.width * fb.height * 4), i)
    } by {
        assert(call_ensures(convert, (fb.color@[i],), pixel_at(given, i)));
    }
    if clip is None {
        lemma_same_pixels_same_bytes(fb.color@, fb.width * fb.height, convert, written, given);
    }
}

/// What the rasterizer does with a triangle, given its signed area.
#[derive(Clone, Copy, Debug, PartialEq, Eq, Structural)]
pub enum Winding {
    /// The area vanishes: nothing is painted.
    Degenerate,
    /// The corners are taken in their order.
    Forward,
    /// The last two corners change places, so that one top-left rule serves for all
    /// triangles.
    Backward,
}

/// What the rasterizer does with a triangle of a signed area.
pub open spec fn winding_of(area: F32) -> Winding {
    if area.within(single::of_bits(EPSILON_BITS)) {
        Winding::Degenerate
    } else if single::of_bits(0).gt(area) {
        Winding::Backward
    } else {
        Winding::Forward
    }
}

/// What the rasterizer does with a triangle of a signed area.
pub fn winding(area: F32) -> (r: Winding)
    ensures
        r == winding_of(area),
{
    let zero = F32 { bits: 0 };
    if area.is_within(F32 { bits: EPSILON_BITS }) {
        Winding::Degenerate
    } else if zero.exceeds(area) {
        Winding::Backward
    } else {
        Winding::Forward
    }
}

/// Whether an edge that falls by `dy` and runs by `dx` is a top or a left edge. On
/// screen, `y` grows downwards.
pub open spec fn top_left_edge(dx: F32, dy: F32) -> bool {
    dy.gt(single::of_bits(0)) || (dy.magnitude() == 0 && single::of_bits(0).gt(dx))
}

/// Whether an edge that falls by `dy` and runs by `dx` is a top or a left edge.
pub fn is_top_left(dx: F32, dy: F32) -> (r: bool)
    ensures
        r == top_left_edge(dx, dy),
{
    let zero = F32 { bits: 0 };
    dy.exceeds(zero) || ((dy.bits == 0 || dy.bits == single::SIGN_BIT) && zero.exceeds(dx))
}

/// Whether a pixel counts as inside of an edge, given its edge function: well outside
/// it does not, inside it does, and on the edge it does where the edge is a top or a
/// left one.
pub open spec fn inside_edge(edge_value: F32, top_left: bool) -> bool {
    if single::of_bits(MINUS_MILLIONTH_BITS).gt(edge_value) {
        false
    } else if edge_value.gt(single::of_bits(0)) {
        true
    } else {
        top_left
    }
}

/// Whether a pixel counts as inside of an edge, given its edge function.
pub fn edge_pass(edge_value: F32, top_left: bool) -> (r: bool)
    ensures
        r == inside_edge(edge_value, top_left),
{
    let zero = F32 { bits: 0 };
    let tolerance = F32 { bits: MINUS_MILLIONTH_BITS };
    if tolerance.exceeds(edge_value) {
        false
    } else if edge_value.exceeds(zero) {
        true
    } else {
        top_left
    }
}

/// The box around a triangle on screen, in whole pixels, all sides included.
#[derive(Clone, Copy, Debug, PartialEq, Eq, Structural)]
pub struct Extent {
    pub min_x: i32,
    pub min_y: i32,
    pub max_x: i32,
    pub max_y: i32,
}

pub open spec fn larger(a: int, b: int) -> int {
    if a >= b {
        a
    } else {
        b
    }
}

pub open spec fn smaller(a: int, b: int) -> int {
    if a <= b {
        a
    } else {
        b
    }
}

/// The pixels of a triangle's box that are on screen, in the rows from `row_start` up
/// to `row_end`, and in the clip rectangle: left, top, right and bottom side, the last
/// two excluded.
pub open spec fn visible_part(
    extent: Extent,
    width: int,
    row_start: int,
    row_end: int,
    clip: Option<ClipRect>,
) -> (int, int, int, int) {
    let left = larger(extent.min_x as int, 0);
    let top = larger(extent.min_y as int, row_start);
    let right = smaller(extent.max_x + 1, width);
    let bottom = smaller(extent.max_y + 1, row_end);
    match clip {
        Some(c) => (
            larger(left, c.0 as int),
            larger(top, c.1 as int),
            smaller(right, c.2 as int),
            smaller(bottom, c.3 as int),
        ),
        None => (left, top, right, bottom),
    }
}

/// The rows and columns of a band of rows that a walk over a triangle visits, the rows
/// counted from the first of the band; none if there are no such pixels.
pub open spec fn window_of(
    extent: Extent,
    width: int,
    row_start: int,
    row_end: int,
    clip: Option<ClipRect>,
) -> Option<Window> {
    let (left, top, right, bottom) = visible_part(extent, width, row_start, row_end, clip);
    if left < right && top < bottom {
        Some(
            Window {
                left: left as usize,
                top: (top - row_start) as usize,
                right: right as usize,
                bottom: (bottom - row_start) as usize,
            },
        )
    } else {
        None
    }
}

fn larger_of(a: i128, b: i128) -> (r: i128)
    ensures
        r == larger(a as int, b as int),
{
    if a >= b {
        a
    } else {
        b
    }
}

fn smaller_of(a: i128, b: i128) -> (r: i128)
    ensures
        r == smaller(a as int, b as int),
{
    if a <= b {
        a
    } else {
        b
    }
}

/// The part of a band of rows that a walk over a triangle visits.
pub fn triangle_window(
    extent: Extent,
    width: usize,
    row_start: usize,
    row_end: usize,
    clip: Option<ClipRect>,
) -> (r: Option<Window>)
    ensures
        r == window_of(extent, width as int, row_start as int, row_end as int, clip),
        r matches Some(w) ==> w.left < w.right <= width && w.top < w.bottom && row_start + w.bottom
            <= row_end && w.right <= extent.max_x + 1 && row_start + w.bottom <= extent.max_y + 1,
{
    let mut left: i128 = larger_of(extent.min_x as i128, 0);
    let mut top: i128 = larger_of(extent.min_y as i128, row_start as i128);
    let mut right: i128 = smaller_of(extent.max_x as i128 + 1, width as i128);
    let mut bottom: i128 = smaller_of(extent.max_y as i128 + 1, row_end as i128);
    match clip {
        Some(c) => {
            left = larger_of(left, c.0 as i128);
            top = larger_of(top, c.1 as i128);
            right = smaller_of(right, c.2 as i128);
            bottom = smaller_of(bottom, c.3 as i128);
        },
        None => {},
    }
    if left < right && top < bottom {
        Some(
            Window {
                left: left as usize,
                top: (top - row_start as i128) as usize,
                right: right as usize,
                bottom: (bottom - row_start as i128) as usize,
            },
        )
    } else {
        None
    }
}

/// What is measured of a triangle at a pixel: its three edge functions and its depth.
#[derive(Clone, Copy, Debug, PartialEq, Eq, Structural)]
pub struct PixelSample {
    pub e0: F32,
    pub e1: F32,
    pub e2: F32,
    pub depth: F32,
}

/// What became of a pixel that a triangle covers and that nothing hides.
#[derive(Clone, Copy, Debug, PartialEq, Eq, Structural)]
pub enum Shading {
    /// The varyings have no value there; the shader was not called.
    Skipped,
    /// The shader was called and gave no colour.
    Discarded,
    /// The shader gave a colour.
    Colored(Rgba),
}

/// Whether a triangle whose edges are top or left edges, or not, covers a pixel.
pub open spec fn covered(p: PixelSample, top_left: (bool, bool, bool)) -> bool {
    inside_edge(p.e0, top_left.0) && inside_edge(p.e1, top_left.1) && inside_edge(p.e2, top_left.2)
}

/// What a triangle makes of a pixel: its colour `c0` and depth `d0` become `c1` and
/// `d1`, and `counted` says whether the shader was called. A pixel that is not covered,
/// or lies behind what is there, or gets no colour, stays as it is. A colour is blended
/// over what is there, and hides what lies behind it unless it is all but transparent.
pub open spec fn pixel_result<
    K: Copy,
    S: Fn(K, i32, i32) -> PixelSample,
    H: Fn(K, i32, i32, u32, u32) -> Shading,
    B: Fn(Rgba, Rgba) -> Rgba,
>(
    key: K,
    sample: S,
    shade: H,
    blend: B,
    top_left: (bool, bool, bool),
    x: i32,
    y: i32,
    c0: Rgba,
    d0: F32,
    c1: Rgba,
    d1: F32,
    counted: bool,
) -> bool {
    exists|p: PixelSample| #[trigger]
        call_ensures(sample, (key, x, y), p) && if !covered(p, top_left) || p.depth.gt(d0) {
            c1 == c0 && d1 == d0 && !counted
        } else {
            exists|s: Shading| #[trigger]
                call_ensures(shade, (key, x, y, (x as int % 2) as u32, (y as int % 2) as u32), s)
                    && match s {
                    Shading::Skipped => c1 == c0 && d1 == d0 && !counted,
                    Shading::Discarded => c1 == c0 && d1 == d0 && counted,
                    Shading::Colored(c) => {
                        &&& call_ensures(blend, (c, c0), c1)
                        &&& d1 == if c.a.gt(single::of_bits(OPAQUE_FROM_BITS)) {
                            p.depth
                        } else {
                            d0
                        }
                        &&& counted
                    },
                }
        }
}

/// How many of `flags` are set.
pub open spec fn count_set(flags: Seq<bool>) -> nat
    decreases flags.len(),
{
    if flags.len() == 0 {
        0
    } else {
        count_set(flags.drop_last()) + if flags.last() {
            1nat
        } else {
            0nat
        }
    }
}

proof fn lemma_count_update(flags: Seq<bool>, i: int, flag: bool)
    requires
        0 <= i < flags.len(),
        !flags[i],
    ensures
        count_set(flags.update(i, flag)) == count_set(flags) + if flag {
            1nat
        } else {
            0nat
        },
    decreases flags.len(),
{
    let later = flags.update(i, flag);
    if i == flags.len() - 1 {
        assert(later.drop_last() =~= flags.drop_last());
    } else {
        assert(later.drop_last() =~= flags.drop_last().update(i, flag));
        lemma_count_update(flags.drop_last(), i, flag);
    }
}

proof fn lemma_count_none(n: nat)
    ensures
        count_set(Seq::new(n, |i: int| false)) == 0,
    decreases n,
{
    if n > 0 {
        assert(Seq::new(n, |i: int| false).drop_last() =~= Seq::new((n - 1) as nat, |i: int| false));
        lemma_count_none((n - 1) as nat);
    }
}

proof fn lemma_count_bounded(flags: Seq<bool>)
    ensures
        count_set(flags) <= flags.len(),
    decreases flags.len(),
{
    if flags.len() > 0 {
        lemma_count_bounded(flags.drop_last());
    }
}

/// Whether the pixel at `index` of a band of rows lies in `window`.
pub open spec fn in_window(index: int, width: int, window: Window) -> bool {
    window.left <= column(index, width) < window.right && window.top <= row(index, width)
        < window.bottom
}

/// Whether the pixels marked by `done` are what the triangle makes of them, and the
/// others are as they were.
pub open spec fn walked<
    K: Copy,
    S: Fn(K, i32, i32) -> PixelSample,
    H: Fn(K, i32, i32, u32, u32) -> Shading,
    B: Fn(Rgba, Rgba) -> Rgba,
>(
    key: K,
    sample: S,
    shade: H,
    blend: B,
    top_left: (bool, bool, bool),
    width: int,
    row_start: int,
    size: int,
    done: spec_fn(int) -> bool,
    colors0: Seq<Rgba>,
    depths0: Seq<F32>,
    colors1: Seq<Rgba>,
    depths1: Seq<F32>,
    flags: Seq<bool>,
) -> bool {
    &&& colors1.len() == colors0.len()
    &&& depths1.len() == depths0.len()
    &&& flags.len() == size
    &&& forall|i: int|
        #![trigger flags[i]]
        #![trigger colors1[i]]
        #![trigger depths1[i]]
        0 <= i < size ==> if done(i) {
            pixel_result(
                key,
                sample,
                shade,
                blend,
                top_left,
                column(i, width) as i32,
                (row_start + row(i, width)) as i32,
                colors0[i],
                depths0[i],
                colors1[i],
                depths1[i],
                flags[i],
            )
        } else {
            colors1[i] == colors0[i] && depths1[i] == depths0[i] && !flags[i]
        }
    &&& forall|i: int| size <= i < colors0.len() ==> #[trigger] colors1[i] == colors0[i]
    &&& forall|i: int| size <= i < depths0.len() ==> #[trigger] depths1[i] == depths0[i]
}

/// The set of pixels that a walk over the rows of `window` has passed.
spec fn passed_set(width: int, window: Window, x: usize, y: usize) -> spec_fn(int) -> bool {
    |i: int| passed(i, width, window, x, y)
}

/// The set of pixels in `window`.
pub open spec fn window_set(width: int, window: Window) -> spec_fn(int) -> bool {
    |i: int| in_window(i, width, window)
}

/// What a walk over a triangle has counted.
#[derive(Clone, Copy, Debug, PartialEq, Eq, Structural)]
pub struct RasterCounts {
    /// The pixels that were looked at.
    pub tested: u64,
    /// The pixels for which the shader was called.
    pub shaded: u64,
}

/// What becomes of one pixel.
fn shade_pixel<
    K: Copy,
    S: Fn(K, i32, i32) -> PixelSample,
    H: Fn(K, i32, i32, u32, u32) -> Shading,
    B: Fn(Rgba, Rgba) -> Rgba,
>(
    key: K,
    sample: &S,
    shade: &H,
    blend: &B,
    top_left: (bool, bool, bool),
    x: i32,
    y: i32,
    c0: Rgba,
    d0: F32,
) -> (r: (Rgba, F32, bool))
    requires
        x >= 0,
        y >= 0,
        forall|x: i32, y: i32| call_requires(*sample, (key, x, y)),
        forall|x: i32, y: i32, lane_x: u32, lane_y: u32|
            call_requires(*shade, (key, x, y, lane_x, lane_y)),
        forall|c: Rgba, d: Rgba| call_requires(*blend, (c, d)),
    ensures
        pixel_result(key, *sample, *shade, *blend, top_left, x, y, c0, d0, r.0, r.1, r.2),
{
    let p: PixelSample = sample(key, x, y);
    if !edge_pass(p.e0, top_left.0) || !edge_pass(p.e1, top_left.1) || !edge_pass(
        p.e2,
        top_left.2,
    ) {
        return (c0, d0, false);
    }
    if p.depth.exceeds(d0) {
        return (c0, d0, false);
    }
    let lane_x: u32 = x as u32 % 2;
    let lane_y: u32 = y as u32 % 2;
    let s: Shading = shade(key, x, y, lane_x, lane_y);
    assert(call_ensures(*shade, (key, x, y, (x as int % 2) as u32, (y as int % 2) as u32), s));
    match s {
        Shading::Skipped => (c0, d0, false),
        Shading::Discarded => (c0, d0, true),
        Shading::Colored(c) => {
            let mixed: Rgba = blend(c, c0);
            let depth: F32 = if c.a.exceeds(F32 { bits: OPAQUE_FROM_BITS }) {
                p.depth
            } else {
                d0
            };
            (mixed, depth, true)
        },
    }
}

/// A band of rows of a framebuffer, from `row_start` up to `row_end`.
#[derive(Clone, Copy, Debug, PartialEq, Eq, Structural)]
pub struct Band {
    pub width: usize,
    pub height: usize,
    pub row_start: usize,
    pub row_end: usize,
}

/// A triangle on screen, as far as the walk over its pixels depends on it.
#[derive(Clone, Copy, Debug)]
pub struct Triangle {
    /// The signed area, as the corners came.
    pub area: F32,
    /// The box around it.
    pub extent: Extent,
    /// Which of its edges are top or left edges.
    pub top_left: (bool, bool, bool),
    /// The number of varyings at each of its corners.
    pub vary_lens: (usize, usize, usize),
}

impl Band {
    /// The first row of the band that exists.
    pub open spec fn first(self) -> int {
        smaller(self.row_start as int, self.height as int)
    }

    /// The row behind the last row of the band that exists.
    pub open spec fn end(self) -> int {
        smaller(self.row_end as int, self.height as int)
    }

    /// The number of pixels in the band.
    pub open spec fn size(self) -> int {
        (self.end() - self.first()) * self.width
    }
}

/// The pixels of a band that a triangle may change: none if the band is empty or does
/// not fit the buffers, if the corners do not belong together, if the triangle has no
/// area, or if nothing of it is visible.
pub open spec fn triangle_pixels(
    band: Band,
    triangle: Triangle,
    clip: Option<ClipRect>,
    colors: int,
    depths: int,
) -> Option<Window> {
    if band.width == 0 || band.first() >= band.end() || colors < band.size() || depths
        < band.size() || triangle.vary_lens.0 != triangle.vary_lens.1 || triangle.vary_lens.1
        != triangle.vary_lens.2 || winding_of(triangle.area) == Winding::Degenerate {
        None
    } else {
        window_of(triangle.extent, band.width as int, band.first(), band.end(), clip)
    }
}

/// Whether painting a triangle turns the pixels of a band, `colors0` and `depths0`, into
/// `colors1` and `depths1`, with these counts.
pub open spec fn triangle_painted<
    K: Copy,
    S: Fn(K, i32, i32) -> PixelSample,
    H: Fn(K, i32, i32, u32, u32) -> Shading,
    B: Fn(Rgba, Rgba) -> Rgba,
>(
    key: K,
    sample: S,
    shade: H,
    blend: B,
    band: Band,
    triangle: Triangle,
    clip: Option<ClipRect>,
    colors0: Seq<Rgba>,
    depths0: Seq<F32>,
    colors1: Seq<Rgba>,
    depths1: Seq<F32>,
    counts: RasterCounts,
) -> bool {
    match triangle_pixels(
        band,
        triangle,
        clip,
        colors0.len() as int,
        depths0.len() as int,
    ) {
        None => {
            &&& colors1 == colors0
            &&& depths1 == depths0
            &&& counts == RasterCounts { tested: 0, shaded: 0 }
        },
        Some(w) => {
            &&& counts.tested == (w.right - w.left) * (w.bottom - w.top)
            &&& exists|flags: Seq<bool>|
                {
                    &&& #[trigger] count_set(flags) == counts.shaded
                    &&& walked(
                        key,
                        sample,
                        shade,
                        blend,
                        triangle.top_left,
                        band.width as int,
                        band.first(),
                        band.size(),
                        window_set(band.width as int, w),
                        colors0,
                        depths0,
                        colors1,
                        depths1,
                        flags,
                    )
                }
        },
    }
}

fn smaller_size(a: usize, b: usize) -> (r: usize)
    ensures
        r == smaller(a as int, b as int),
{
    if a <= b {
        a
    } else {
        b
    }
}

/// Paints the part of a triangle that lies in a band of rows. `color` and `depth_buf`
/// hold the pixels of the band, row by row. Each pixel of the triangle's box that lies
/// in the band and in the clip is visited once; no other pixel is touched.
pub fn rasterize_triangle_rows<
    K: Copy,
    S: Fn(K, i32, i32) -> PixelSample,
    H: Fn(K, i32, i32, u32, u32) -> Shading,
    B: Fn(Rgba, Rgba) -> Rgba,
>(
    band: Band,
    color: &mut [Rgba],
    depth_buf: &mut [F32],
    triangle: Triangle,
    clip: Option<ClipRect>,
    key: K,
    sample: &S,
    shade: &H,
    blend: &B,
) -> (r: RasterCounts)
    requires
        forall|x: i32, y: i32| call_requires(*sample, (key, x, y)),
        forall|x: i32, y: i32, lane_x: u32, lane_y: u32|
            call_requires(*shade, (key, x, y, lane_x, lane_y)),
        forall|c: Rgba, d: Rgba| call_requires(*blend, (c, d)),
    ensures
        triangle_painted(
            key,
            *sample,
            *shade,
            *blend,
            band,
            triangle,
            clip,
            old(color)@,
            old(depth_buf)@,
            final(color)@,
            final(depth_buf)@,
            r,
        ),
{
    let none = RasterCounts { tested: 0, shaded: 0 };
    let width: usize = band.width;
    if width == 0 || band.height == 0 {
        return none;
    }
    let row_start: usize = smaller_size(band.row_start, band.height);
    let row_end: usize = smaller_size(band.row_end, band.height);
    if row_start >= row_end {
        return none;
    }
    let rows: usize = row_end - row_start;
    let colors: usize = color.len();
    let depths: usize = depth_buf.len();
    let size: usize = match rows.checked_mul(width) {
        Some(n) => n,
        None => {
            return none;
        },
    };
    if colors < size || depths < size {
        return none;
    }
    if triangle.vary_lens.0 != triangle.vary_lens.1 || triangle.vary_lens.1
        != triangle.vary_lens.2 {
        return none;
    }
    match winding(triangle.area) {
        Winding::Degenerate => {
            return none;
        },
        _ => {},
    }
    let window = match triangle_window(triangle.extent, width, row_start, row_end, clip) {
        Some(w) => w,
        None => {
            return none;
        },
    };
    let across: u64 = (window.right - window.left) as u64;
    let down: u64 = (window.bottom - window.top) as u64;
    assert(across * down <= u64::MAX) by (nonlinear_arith)
        requires
            across <= 0x8000_0000,
            down <= 0x8000_0000,
    ;
    let tested: u64 = across * down;
    let mut shaded: u64 = 0;
    let ghost c0 = color@;
    let ghost d0 = depth_buf@;
    let ghost mut flags: Seq<bool> = Seq::new(size as nat, |i: int| false);
    proof {
        lemma_count_none(size as nat);
        assert forall|i: int| 0 <= i < size implies !passed(
            i,
            width as int,
            window,
            window.left,
            window.top,
        ) by {}
    }
    let mut y: usize = window.top;
    while y < window.bottom
        invariant
            forall|x: i32, y: i32| call_requires(*sample, (key, x, y)),
            forall|x: i32, y: i32, lane_x: u32, lane_y: u32|
                call_requires(*shade, (key, x, y, lane_x, lane_y)),
            forall|c: Rgba, d: Rgba| call_requires(*blend, (c, d)),
            width > 0,
            size == rows * width,
            size <= color@.len(),
            size <= depth_buf@.len(),
            color@.len() == c0.len(),
            depth_buf@.len() == d0.len(),
            window.top <= y <= window.bottom,
            window.bottom <= rows,
            window.left < window.right <= width,
            window.right <= 0x8000_0000,
            row_start + window.bottom <= 0x8000_0000,
            shaded == count_set(flags),
            walked(
                key,
                *sample,
                *shade,
                *blend,
                triangle.top_left,
                width as int,
                row_start as int,
                size as int,
                passed_set(width as int, window, window.left, y),
                c0,
                d0,
                color@,
                depth_buf@,
                flags,
            ),
        decreases window.bottom - y,
    {
        let mut x: usize = window.left;
        while x < window.right
            invariant
                forall|x: i32, y: i32| call_requires(*sample, (key, x, y)),
                forall|x: i32, y: i32, lane_x: u32, lane_y: u32|
                    call_requires(*shade, (key, x, y, lane_x, lane_y)),
                forall|c: Rgba, d: Rgba| call_requires(*blend, (c, d)),
                width > 0,
                size == rows * width,
                size <= color@.len(),
                size <= depth_buf@.len(),
                color@.len() == c0.len(),
                depth_buf@.len() == d0.len(),
                window.top <= y < window.bottom,
                window.bottom <= rows,
                window.left <= x <= window.right,
                window.right <= width,
                window.right <= 0x8000_0000,
                row_start + window.bottom <= 0x8000_0000,
                shaded == count_set(flags),
                walked(
                    key,
                    *sample,
                    *shade,
                    *blend,
                    triangle.top_left,
                    width as int,
                    row_start as int,
                    size as int,
                    passed_set(width as int, window, x, y),
                    c0,
                    d0,
                    color@,
                    depth_buf@,
                    flags,
                ),
            decreases window.right - x,
        {
            proof {
                assert(width * rows == rows * width) by (nonlinear_arith);
                lemma_index_in_range(x as int, y as int, width as int, rows as int);
                lemma_row_and_column(x as int, y as int, width as int);
                assert(0 <= y * width) by (nonlinear_arith);
            }
            let index: usize = y * width + x;
            let screen_x: i32 = x as i32;
            let screen_y: i32 = (row_start + y) as i32;
            let ghost c1 = color@;
            let ghost d1 = depth_buf@;
            let painted: (Rgba, F32, bool) = shade_pixel(
                key,
                sample,
                shade,
                blend,
                triangle.top_left,
                screen_x,
                screen_y,
                color[index],
                depth_buf[index],
            );
            color[index] = painted.0;
            depth_buf[index] = painted.1;
            proof {
                assert(!passed(index as int, width as int, window, x, y));
                assert(!passed_set(width as int, window, x, y)(index as int));
                assert(!flags[index as int]);
                assert(c1[index as int] == c0[index as int]);
                assert(d1[index as int] == d0[index as int]);
                lemma_count_update(flags, index as int, painted.2);
                lemma_count_bounded(flags.update(index as int, painted.2));
                lemma_walk_one(
                    key,
                    *sample,
                    *shade,
                    *blend,
                    triangle.top_left,
                    width as int,
                    row_start as int,
                    rows as int,
                    size as int,
                    window,
                    x,
                    y,
                    c0,
                    d0,
                    c1,
                    d1,
                    flags,
                    painted,
                );
                flags = flags.update(index as int, painted.2);
            }
            if painted.2 {
                shaded = shaded + 1;
            }
            x = x + 1;
        }
        proof {
            assert forall|i: int| #[trigger]
                passed_set(width as int, window, x, y)(i) == passed_set(
                width as int,
                window,
                window.left,
                (y + 1) as usize,
            )(i) by {}
            assert(passed_set(width as int, window, x, y) =~= passed_set(
                width as int,
                window,
                window.left,
                (y + 1) as usize,
            ));
        }
        y = y + 1;
    }
    proof {
        assert(passed_set(width as int, window, window.left, y) =~= window_set(
            width as int,
            window,
        ));
    }
    RasterCounts { tested, shaded }
}

/// One more pixel of the walk is done.
proof fn lemma_walk_one<
    K: Copy,
    S: Fn(K, i32, i32) -> PixelSample,
    H: Fn(K, i32, i32, u32, u32) -> Shading,
    B: Fn(Rgba, Rgba) -> Rgba,
>(
    key: K,
    sample: S,
    shade: H,
    blend: B,
    top_left: (bool, bool, bool),
    width: int,
    row_start: int,
    rows: int,
    size: int,
    window: Window,
    x: usize,
    y: usize,
    c0: Seq<Rgba>,
    d0: Seq<F32>,
    c1: Seq<Rgba>,
    d1: Seq<F32>,
    flags: Seq<bool>,
    painted: (Rgba, F32, bool),
)
    requires
        walked(
            key,
            sample,
            shade,
            blend,
            top_left,
            width,
            row_start,
            size,
            passed_set(width, window, x, y),
            c0,
            d0,
            c1,
            d1,
            flags,
        ),
        size == rows * width,
        size <= c0.len(),
        size <= d0.len(),
        window.left <= x < width,
        y < rows,
        x < usize::MAX,
        pixel_result(
            key,
            sample,
            shade,
            blend,
            top_left,
            x as i32,
            (row_start + y) as i32,
            c0[y * width + x],
            d0[y * width + x],
            painted.0,
            painted.1,
            painted.2,
        ),
    ensures
        walked(
            key,
            sample,
            shade,
            blend,
            top_left,
            width,
            row_start,
            size,
            passed_set(width, window, (x + 1) as usize, y),
            c0,
            d0,
            c1.update(y * width + x, painted.0),
            d1.update(y * width + x, painted.1),
            flags.update(y * width + x, painted.2),
        ),
{
    let index = y * width + x;
    assert(width * rows == rows * width) by (nonlinear_arith);
    lemma_index_in_range(x as int, y as int, width, rows);
    lemma_row_and_column(x as int, y as int, width);
    let c2 = c1.update(index, painted.0);
    let d2 = d1.update(index, painted.1);
    let flags2 = flags.update(index, painted.2);
    let before = passed_set(width, window, x, y);
    let after = passed_set(width, window, (x + 1) as usize, y);
    assert forall|i: int|
        #![trigger flags2[i]]
        #![trigger c2[i]]
        #![trigger d2[i]]
        0 <= i < size implies if after(i) {
        pixel_result(
            key,
            sample,
            shade,
            blend,
            top_left,
            column(i, width) as i32,
            (row_start + row(i, width)) as i32,
            c0[i],
            d0[i],
            c2[i],
            d2[i],
            flags2[i],
        )
    } else {
        c2[i] == c0[i] && d2[i] == d0[i] && !flags2[i]
    } by {
        lemma_index_splits(i, width, rows);
        if i != index {
            assert(flags2[i] == flags[i]);
            assert(after(i) == before(i));
        }
    }
    assert forall|i: int| size <= i < c0.len() implies #[trigger] c2[i] == c0[i] by {
        assert(c1[i] == c0[i]);
    }
    assert forall|i: int| size <= i < d0.len() implies #[trigger] d2[i] == d0[i] by {
        assert(d1[i] == d0[i]);
    }
}

/// Whether the pixel (`x`, `y`) lies in a part of the screen.
pub open spec fn in_part(part: (int, int, int, int), x: int, y: int) -> bool {
    part.0 <= x < part.2 && part.1 <= y < part.3
}

/// A band paints the pixels of its own rows that painting the whole screen would paint,
/// and no others: dividing the screen into bands changes no pixel.
pub proof fn law_bands_share_out_the_screen(
    extent: Extent,
    width: int,
    height: int,
    row_start: int,
    row_end: int,
    clip: Option<ClipRect>,
    x: int,
    y: int,
)
    requires
        0 <= row_start <= row_end <= height,
    ensures
        in_part(visible_part(extent, width, row_start, row_end, clip), x, y) <==> row_start <= y
            < row_end && in_part(visible_part(extent, width, 0, height, clip), x, y),
{
}

/// Nothing outside of the clip rectangle or of the screen is painted.
pub proof fn law_nothing_outside_the_clip_is_painted(
    extent: Extent,
    width: int,
    height: int,
    clip: ClipRect,
    x: int,
    y: int,
)
    requires
        in_part(visible_part(extent, width, 0, height, Some(clip)), x, y),
    ensures
        clip.0 <= x < clip.2,
        clip.1 <= y < clip.3,
        0 <= x < width,
        0 <= y < height,
{
}

/// A suspended clip leaves nothing out, whatever was asked for.
pub proof fn law_suspension_paints_everything(state: ClipState)
    ensures
        (ClipState { suspended: true, ..state }).rect() is None,
        (ClipState { suspended: false, forced: None, ..state }).rect() == state.damage,
{
}

/// Per-pixel differences of the varyings: the value one pixel to the right, and one
/// pixel down, minus the value at the pixel.
pub struct TriangleDerivatives {
    pub dvary_dx: Vec<F32>,
    pub dvary_dy: Vec<F32>,
}

impl Default for TriangleDerivatives {
    fn default() -> (r: Self)
        ensures
            r.dvary_dx@.len() == 0,
            r.dvary_dy@.len() == 0,
    {
        TriangleDerivatives { dvary_dx: Vec::new(), dvary_dy: Vec::new() }
    }
}

/// Buffers that are kept from triangle to triangle.
pub struct RasterScratch {
    pub interp: Vec<F32>,
    pub interp_dx: Vec<F32>,
    pub interp_dy: Vec<F32>,
    pub derivs: TriangleDerivatives,
}

impl Default for RasterScratch {
    fn default() -> (r: Self)
        ensures
            r.interp@.len() == 0,
            r.interp_dx@.len() == 0,
            r.interp_dy@.len() == 0,
            r.derivs.dvary_dx@.len() == 0,
            r.derivs.dvary_dy@.len() == 0,
    {
        RasterScratch {
            interp: Vec::new(),
            interp_dx: Vec::new(),
            interp_dy: Vec::new(),
            derivs: TriangleDerivatives::default(),
        }
    }
}

/// `values`, with zeros behind them as far as they are fewer than `len`.
pub open spec fn padded(values: Seq<F32>, len: nat) -> Seq<F32> {
    if values.len() >= len {
        values
    } else {
        values + Seq::new((len - values.len()) as nat, |i: int| single::of_bits(0))
    }
}

fn pad(values: &mut Vec<F32>, len: usize)
    ensures
        final(values)@ == padded(old(values)@, len as nat),
{
    let ghost before = values@;
    while values.len() < len
        invariant
            before.len() <= values@.len(),
            values@.len() <= len || values@.len() == before.len(),
            values@ =~= before + Seq::new(
                (values@.len() - before.len()) as nat,
                |i: int| single::of_bits(0),
            ),
        decreases len - values@.len(),
    {
        values.push(F32 { bits: 0 });
    }
    assert(values@ =~= padded(before, len as nat));
}

impl RasterScratch {
    /// Makes the buffers that will be used large enough for `vary_len` varyings.
    pub fn ensure_vary_len(&mut self, vary_len: usize, compute_derivatives: bool)
        ensures
            final(self).interp@ == padded(old(self).interp@, vary_len as nat),
            final(self).interp_dx@ == if compute_derivatives {
                padded(old(self).interp_dx@, vary_len as nat)
            } else {
                old(self).interp_dx@
            },
            final(self).interp_dy@ == if compute_derivatives {
                padded(old(self).interp_dy@, vary_len as nat)
            } else {
                old(self).interp_dy@
            },
            final(self).derivs.dvary_dx@ == if compute_derivatives {
                padded(old(self).derivs.dvary_dx@, vary_len as nat)
            } else {
                old(self).derivs.dvary_dx@
            },
            final(self).derivs.dvary_dy@ == if compute_derivatives {
                padded(old(self).derivs.dvary_dy@, vary_len as nat)
            } else {
                old(self).derivs.dvary_dy@
            },
    {
        pad(&mut self.interp, vary_len);
        if compute_derivatives {
            pad(&mut self.interp_dx, vary_len);
            pad(&mut self.interp_dy, vary_len);
            pad(&mut self.derivs.dvary_dx, vary_len);
            pad(&mut self.derivs.dvary_dy, vary_len);
        }
    }

    /// Sets the first `flat_slots` interpolated varyings to their value at the first
    /// corner: slots that are constant over a primitive stay bit for bit the same, and
    /// do not drift by interpolation.
    pub fn hold_flat_slots(&mut self, first: &[F32], flat_slots: usize)
        requires
            flat_slots <= first@.len(),
            flat_slots <= old(self).interp@.len(),
        ensures
            final(self).interp@ == first@.take(flat_slots as int) + old(self).interp@.skip(
                flat_slots as int,
            ),
            final(self).interp_dx == old(self).interp_dx,
            final(self).interp_dy == old(self).interp_dy,
            final(self).derivs == old(self).derivs,
    {
        let ghost before = *self;
        let mut i: usize = 0;
        while i < flat_slots
            invariant
                i <= flat_slots,
                flat_slots <= first@.len(),
                flat_slots <= self.interp@.len(),
                self.interp@ =~= first@.take(i as int) + before.interp@.skip(i as int),
                self.interp_dx == before.interp_dx,
                self.interp_dy == before.interp_dy,
                self.derivs == before.derivs,
                self.interp@.len() == before.interp@.len(),
            decreases flat_slots - i,
        {
            self.interp[i] = first[i];
            i = i + 1;
        }
    }
}

/// Sets the differences of the first `flat_slots` varyings to zero: what is constant
/// over a primitive does not change from pixel to pixel.
pub fn flatten_derivatives(derivs: &mut TriangleDerivatives, flat_slots: usize)
    requires
        flat_slots <= old(derivs).dvary_dx@.len(),
        flat_slots <= old(derivs).dvary_dy@.len(),
    ensures
        final(derivs).dvary_dx@ == Seq::new(flat_slots as nat, |i: int| single::of_bits(0))
            + old(derivs).dvary_dx@.skip(flat_slots as int),
        final(derivs).dvary_dy@ == Seq::new(flat_slots as nat, |i: int| single::of_bits(0))
            + old(derivs).dvary_dy@.skip(flat_slots as int),
{
    let ghost before = *derivs;
    let mut i: usize = 0;
    while i < flat_slots
        invariant
            i <= flat_slots,
            flat_slots <= derivs.dvary_dx@.len(),
            flat_slots <= derivs.dvary_dy@.len(),
            derivs.dvary_dx@.len() == before.dvary_dx@.len(),
            derivs.dvary_dy@.len() == before.dvary_dy@.len(),
            derivs.dvary_dx@ =~= Seq::new(i as nat, |j: int| single::of_bits(0))
                + before.dvary_dx@.skip(i as int),
            derivs.dvary_dy@ =~= Seq::new(i as nat, |j: int| single::of_bits(0))
                + before.dvary_dy@.skip(i as int),
        decreases flat_slots - i,
    {
        derivs.dvary_dx[i] = F32 { bits: 0 };
        derivs.dvary_dy[i] = F32 { bits: 0 };
        i = i + 1;
    }
}

/// A triangle is left out if its area is no larger than the machine epsilon, with either
/// sign; its last two corners change places exactly if its area is negative.
pub proof fn law_winding_goes_by_the_sign_of_the_area(area: F32)
    ensures
        area.bits <= 0x3400_0000 || 0x8000_0000 <= area.bits <= 0xb400_0000 ==> winding_of(area)
            == Winding::Degenerate,
        0x3400_0000 < area.bits <= 0x7f80_0000 ==> winding_of(area) == Winding::Forward,
        0xb400_0000 < area.bits <= 0xff80_0000 ==> winding_of(area) == Winding::Backward,
        0x7f80_0000 < area.bits < 0x8000_0000 || area.bits > 0xff80_0000 ==> winding_of(area)
            == Winding::Forward,
{
}

/// An edge that falls is a left edge, one that rises is not; a level edge is a top edge if it
/// runs to the left. So of an edge and the same edge walked the other way, as two triangles
/// share it, exactly one is a top or a left edge.
pub proof fn law_a_shared_edge_belongs_to_one_triangle(
    dx: F32,
    dy: F32,
    back_dx: F32,
    back_dy: F32,
)
    requires
        dx.bits <= 0x7f80_0000 || 0x8000_0000 <= dx.bits <= 0xff80_0000,
        dy.bits <= 0x7f80_0000 || 0x8000_0000 <= dy.bits <= 0xff80_0000,
        back_dx.bits == dx.bits + 0x8000_0000 || dx.bits == back_dx.bits + 0x8000_0000,
        back_dy.bits == dy.bits + 0x8000_0000 || dy.bits == back_dy.bits + 0x8000_0000,
    ensures
        0 < dy.bits < 0x8000_0000 ==> top_left_edge(dx, dy),
        dy.bits > 0x8000_0000 ==> !top_left_edge(dx, dy),
        dy.bits == 0 || dy.bits == 0x8000_0000 ==> (top_left_edge(dx, dy) <==> dx.bits
            > 0x8000_0000),
        !(dx.bits == 0 || dx.bits == 0x8000_0000) || !(dy.bits == 0 || dy.bits == 0x8000_0000)
            ==> top_left_edge(dx, dy) != top_left_edge(back_dx, back_dy),
{
}

/// A pixel whose edge function is positive lies inside of the edge; one whose edge function
/// is below minus one millionth does not; between the two, it belongs to the triangle whose
/// top or left edge this is.
pub proof fn law_edges_divide_the_pixels(edge_value: F32, top_left: bool)
    ensures
        0 < edge_value.bits <= 0x7f80_0000 ==> inside_edge(edge_value, top_left),
        0xb586_37bd < edge_value.bits <= 0xff80_0000 ==> !inside_edge(edge_value, top_left),
        edge_value.bits == 0 || 0x8000_0000 <= edge_value.bits <= 0xb586_37bd ==> inside_edge(
            edge_value,
            top_left,
        ) == top_left,
{
}

/// Whether a single is a number greater than zero.
pub open spec fn well_inside(v: F32) -> bool {
    0 < v.bits <= 0x7f80_0000
}

/// A covered pixel that lies no deeper than what is there, as deep included, gets the colour
/// that the shader gives, blended over what is there, and its depth, unless the colour is all
/// but transparent. A pixel for which the shader gives no colour stays as it is.
pub proof fn law_a_covered_pixel_is_painted<
    K: Copy,
    S: Fn(K, i32, i32) -> PixelSample,
    H: Fn(K, i32, i32, u32, u32) -> Shading,
    B: Fn(Rgba, Rgba) -> Rgba,
>(
    key: K,
    sample: S,
    shade: H,
    blend: B,
    top_left: (bool, bool, bool),
    x: i32,
    y: i32,
    c0: Rgba,
    d0: F32,
    c1: Rgba,
    d1: F32,
    counted: bool,
    p: PixelSample,
    s: Shading,
)
    requires
        pixel_result(key, sample, shade, blend, top_left, x, y, c0, d0, c1, d1, counted),
        x >= 0,
        y >= 0,
        forall|q: PixelSample| #[trigger] call_ensures(sample, (key, x, y), q) ==> q == p,
        forall|t: Shading| #[trigger]
            call_ensures(shade, (key, x, y, (x as int % 2) as u32, (y as int % 2) as u32), t)
                ==> t == s,
        well_inside(p.e0) || (top_left.0 && p.e0.bits == 0),
        well_inside(p.e1) || (top_left.1 && p.e1.bits == 0),
        well_inside(p.e2) || (top_left.2 && p.e2.bits == 0),
        !p.depth.gt(d0),
    ensures
        match s {
            Shading::Skipped => c1 == c0 && d1 == d0 && !counted,
            Shading::Discarded => c1 == c0 && d1 == d0 && counted,
            Shading::Colored(c) => {
                &&& call_ensures(blend, (c, c0), c1)
                &&& counted
                &&& 0x3ca3_d70a < c.a.bits <= 0x7f80_0000 ==> d1 == p.depth
                &&& c.a.bits <= 0x3ca3_d70a || c.a.bits >= 0x8000_0000 ==> d1 == d0
            },
        },
{
}

/// A pixel that lies outside of an edge of the triangle, on an edge that is neither a top nor
/// a left edge, or deeper than what is there stays as it is, and the shader is not called.
pub proof fn law_other_pixels_stay<
    K: Copy,
    S: Fn(K, i32, i32) -> PixelSample,
    H: Fn(K, i32, i32, u32, u32) -> Shading,
    B: Fn(Rgba, Rgba) -> Rgba,
>(
    key: K,
    sample: S,
    shade: H,
    blend: B,
    top_left: (bool, bool, bool),
    x: i32,
    y: i32,
    c0: Rgba,
    d0: F32,
    c1: Rgba,
    d1: F32,
    counted: bool,
    p: PixelSample,
)
    requires
        pixel_result(key, sample, shade, blend, top_left, x, y, c0, d0, c1, d1, counted),
        forall|q: PixelSample| #[trigger] call_ensures(sample, (key, x, y), q) ==> q == p,
        ({
            ||| 0xb586_37bd < p.e0.bits <= 0xff80_0000
            ||| 0xb586_37bd < p.e1.bits <= 0xff80_0000
            ||| 0xb586_37bd < p.e2.bits <= 0xff80_0000
            ||| !top_left.0 && p.e0.bits == 0
            ||| !top_left.1 && p.e1.bits == 0
            ||| !top_left.2 && p.e2.bits == 0
            ||| p.depth.gt(d0)
        }),
    ensures
        c1 == c0,
        d1 == d0,
        !counted,
{
}

/// Of two opaque triangles that cover a pixel at the same depth, the one that is painted
/// later gives the pixel its colour.
pub proof fn law_what_is_painted_later_lies_on_top<
    K: Copy,
    S: Fn(K, i32, i32) -> PixelSample,
    H: Fn(K, i32, i32, u32, u32) -> Shading,
    B: Fn(Rgba, Rgba) -> Rgba,
>(
    first: K,
    second: K,
    sample: S,
    shade: H,
    blend: B,
    top_left: (bool, bool, bool),
    x: i32,
    y: i32,
    colors: (Rgba, Rgba, Rgba),
    depths: (F32, F32, F32),
    counted: (bool, bool),
    depth: F32,
    under: Rgba,
    over: Rgba,
)
    requires
        x >= 0,
        y >= 0,
        pixel_result(
            first,
            sample,
            shade,
            blend,
            top_left,
            x,
            y,
            colors.0,
            depths.0,
            colors.1,
            depths.1,
            counted.0,
        ),
        pixel_result(
            second,
            sample,
            shade,
            blend,
            top_left,
            x,
            y,
            colors.1,
            depths.1,
            colors.2,
            depths.2,
            counted.1,
        ),
        forall|k: K, q: PixelSample| #[trigger]
            call_ensures(sample, (k, x, y), q) ==> q.depth == depth && well_inside(q.e0)
                && well_inside(q.e1) && well_inside(q.e2),
        forall|t: Shading| #[trigger]
            call_ensures(shade, (first, x, y, (x as int % 2) as u32, (y as int % 2) as u32), t)
                ==> t == Shading::Colored(under),
        forall|t: Shading| #[trigger]
            call_ensures(shade, (second, x, y, (x as int % 2) as u32, (y as int % 2) as u32), t)
                ==> t == Shading::Colored(over),
        under.a.bits == 0x3f80_0000,
        over.a.bits == 0x3f80_0000,
        forall|c: Rgba, d: Rgba, r: Rgba| #[trigger]
            call_ensures(blend, (c, d), r) && c.a.bits == 0x3f80_0000 ==> r == c,
        !depth.gt(depths.0),
    ensures
        colors.1 == under,
        colors.2 == over,
        depths.2 == depth,
        counted.0 && counted.1,
{
}

/// Whether the pixel (`x`, `y`) of the screen lies in the box of a triangle, in a band of
/// rows and in the clip.
pub open spec fn may_be_painted(
    band: Band,
    triangle: Triangle,
    clip: Option<ClipRect>,
    x: int,
    y: int,
) -> bool {
    &&& 0 <= x < band.width
    &&& 0 <= y < band.height
    &&& band.row_start <= y < band.row_end
    &&& triangle.extent.min_x <= x <= triangle.extent.max_x
    &&& triangle.extent.min_y <= y <= triangle.extent.max_y
    &&& clip matches Some(c) ==> c.0 <= x < c.2 && c.1 <= y < c.3
}

/// Every pixel of a band is painted that lies in the box of the triangle and in the clip,
/// by what is measured at its own place on screen; no other pixel is.
pub proof fn law_each_pixel_is_painted_in_its_place<
    K: Copy,
    S: Fn(K, i32, i32) -> PixelSample,
    H: Fn(K, i32, i32, u32, u32) -> Shading,
    B: Fn(Rgba, Rgba) -> Rgba,
>(
    key: K,
    sample: S,
    shade: H,
    blend: B,
    band: Band,
    triangle: Triangle,
    clip: Option<ClipRect>,
    colors0: Seq<Rgba>,
    depths0: Seq<F32>,
    colors1: Seq<Rgba>,
    depths1: Seq<F32>,
    counts: RasterCounts,
    x: int,
    y: int,
)
    requires
        triangle_painted(
            key,
            sample,
            shade,
            blend,
            band,
            triangle,
            clip,
            colors0,
            depths0,
            colors1,
            depths1,
            counts,
        ),
        0 <= x < band.width,
        band.row_start <= y < band.row_end,
        y < band.height,
        colors0.len() >= (smaller(band.row_end as int, band.height as int) - band.row_start)
            * band.width,
        depths0.len() >= (smaller(band.row_end as int, band.height as int) - band.row_start)
            * band.width,
        triangle.vary_lens.0 == triangle.vary_lens.1 == triangle.vary_lens.2,
        0x3400_0000 < triangle.area.bits <= 0x7f80_0000 || 0xb400_0000 < triangle.area.bits
            <= 0xff80_0000,
    ensures
        colors1.len() == colors0.len(),
        depths1.len() == depths0.len(),
        ({
            let i = (y - band.row_start) * band.width + x;
            if may_be_painted(band, triangle, clip, x, y) {
                exists|counted: bool| #[trigger]
                    pixel_result(
                        key,
                        sample,
                        shade,
                        blend,
                        triangle.top_left,
                        x as i32,
                        y as i32,
                        colors0[i],
                        depths0[i],
                        colors1[i],
                        depths1[i],
                        counted,
                    )
            } else {
                colors1[i] == colors0[i] && depths1[i] == depths0[i]
            }
        }),
{
    let w = band.width as int;
    let rows = band.end() - band.first();
    let i = (y - band.row_start) * w + x;
    assert(band.first() == band.row_start);
    lemma_index_in_range(x, y - band.row_start, w, rows);
    assert(w * rows == rows * w) by (nonlinear_arith);
    lemma_row_and_column(x, y - band.row_start, w);
    match triangle_pixels(band, triangle, clip, colors0.len() as int, depths0.len() as int) {
        Some(window) => {
            let flags = choose|flags: Seq<bool>|
                {
                    &&& #[trigger] count_set(flags) == counts.shaded
                    &&& walked(
                        key,
                        sample,
                        shade,
                        blend,
                        triangle.top_left,
                        w,
                        band.first(),
                        band.size(),
                        window_set(w, window),
                        colors0,
                        depths0,
                        colors1,
                        depths1,
                        flags,
                    )
                };
            assert(window_set(w, window)(i) == in_window(i, w, window));
            assert(in_window(i, w, window) == may_be_painted(band, triangle, clip, x, y));
            assert(column(i, w) == x && band.first() + row(i, w) == y);
            if may_be_painted(band, triangle, clip, x, y) {
                let counted = flags[i];
                assert(pixel_result(
                    key,
                    sample,
                    shade,
                    blend,
                    triangle.top_left,
                    x as i32,
                    y as i32,
                    colors0[i],
                    depths0[i],
                    colors1[i],
                    depths1[i],
                    counted,
                ));
            } else {
                assert(colors1[i] == colors0[i]);
            }
        },
        None => {
            assert(!may_be_painted(band, triangle, clip, x, y));
        },
    }
}

/// A triangle without an area, one whose corners do not belong together, and one that is
/// painted to buffers that are too short change nothing.
pub proof fn law_unsound_triangles_paint_nothing<
    K: Copy,
    S: Fn(K, i32, i32) -> PixelSample,
    H: Fn(K, i32, i32, u32, u32) -> Shading,
    B: Fn(Rgba, Rgba) -> Rgba,
>(
    key: K,
    sample: S,
    shade: H,
    blend: B,
    band: Band,
    triangle: Triangle,
    clip: Option<ClipRect>,
    colors0: Seq<Rgba>,
    depths0: Seq<F32>,
    colors1: Seq<Rgba>,
    depths1: Seq<F32>,
    counts: RasterCounts,
)
    requires
        triangle_painted(
            key,
            sample,
            shade,
            blend,
            band,
            triangle,
            clip,
            colors0,
            depths0,
            colors1,
            depths1,
            counts,
        ),
        ({
            ||| triangle.area.bits <= 0x3400_0000
            ||| 0x8000_0000 <= triangle.area.bits <= 0xb400_0000
            ||| triangle.vary_lens.0 != triangle.vary_lens.1
            ||| triangle.vary_lens.1 != triangle.vary_lens.2
            ||| band.row_start <= band.row_end <= band.height && (colors0.len() < (band.row_end
                - band.row_start) * band.width || depths0.len() < (band.row_end - band.row_start)
                * band.width)
        }),
    ensures
        colors1 == colors0,
        depths1 == depths0,
        counts.tested == 0,
        counts.shaded == 0,
{
}

/// The pixels that are tested are those of the part of the triangle's box that lies in the
/// band and in the clip.
pub proof fn law_visible_pixels_are_tested<
    K: Copy,
    S: Fn(K, i32, i32) -> PixelSample,
    H: Fn(K, i32, i32, u32, u32) -> Shading,
    B: Fn(Rgba, Rgba) -> Rgba,
>(
    key: K,
    sample: S,
    shade: H,
    blend: B,
    band: Band,
    triangle: Triangle,
    clip: Option<ClipRect>,
    colors0: Seq<Rgba>,
    depths0: Seq<F32>,
    colors1: Seq<Rgba>,
    depths1: Seq<F32>,
    counts: RasterCounts,
    part: (int, int, int, int),
)
    requires
        triangle_painted(
            key,
            sample,
            shade,
            blend,
            band,
            triangle,
            clip,
            colors0,
            depths0,
            colors1,
            depths1,
            counts,
        ),
        counts.tested > 0,
        part.0 < part.2,
        part.1 < part.3,
        forall|x: int, y: int| #[trigger]
            may_be_painted(band, triangle, clip, x, y) <==> part.0 <= x < part.2 && part.1 <= y
                < part.3,
    ensures
        counts.tested == (part.2 - part.0) * (part.3 - part.1),
        counts.shaded <= colors0.len(),
{
    let w = triangle_pixels(
        band,
        triangle,
        clip,
        colors0.len() as int,
        depths0.len() as int,
    )->0;
    let (left, top, right, bottom) = visible_part(
        triangle.extent,
        band.width as int,
        band.first(),
        band.end(),
        clip,
    );
    assert(may_be_painted(band, triangle, clip, left, top));
    assert(may_be_painted(band, triangle, clip, right - 1, bottom - 1));
    assert(may_be_painted(band, triangle, clip, part.0, part.1));
    assert(may_be_painted(band, triangle, clip, part.2 - 1, part.3 - 1));
    let flags = choose|flags: Seq<bool>|
        {
            &&& #[trigger] count_set(flags) == counts.shaded
            &&& walked(
                key,
                sample,
                shade,
                blend,
                triangle.top_left,
                band.width as int,
                band.first(),
                band.size(),
                window_set(band.width as int, w),
                colors0,
                depths0,
                colors1,
                depths1,
                flags,
            )
        };
    lemma_count_bounded(flags);
}

/// The shader calls of a walk are counted one by one.
pub proof fn law_counts_add_up(a: Seq<bool>, b: Seq<bool>)
    ensures
        count_set(a + b) == count_set(a) + count_set(b),
        count_set(seq![true]) == 1,
        count_set(seq![false]) == 0,
    decreases b.len(),
{
    reveal_with_fuel(count_set, 2);
    if b.len() > 0 {
        law_counts_add_up(a, b.drop_last());
        assert((a + b).drop_last() =~= a + b.drop_last());
    } else {
        assert(a + b =~= a);
    }
}

/// The pixels of a rectangle are those of its rows and columns, in rows of `width` pixels.
pub proof fn law_a_rectangle_holds_its_rows_and_columns(x: int, y: int, width: int, clip: ClipRect)
    requires
        0 <= x < width,
        0 <= y,
    ensures
        index_in(y * width + x, width, clip) <==> clip.0 <= x < clip.2 && clip.1 <= y < clip.3,
{
    lemma_row_and_column(x, y, width);
}

/// A forced clip comes before the damage, and the suspension before both.
pub proof fn law_a_forced_clip_comes_first(state: ClipState, clip: ClipRect)
    ensures
        state.suspended ==> state.rect() is None,
        !state.suspended && state.forced == Some(clip) ==> state.rect() == Some(clip),
        !state.suspended && state.forced is None ==> state.rect() == state.damage,
{
}

/// The bytes of a pixel stand in its place: four for each pixel, row by row, red first and
/// alpha last. A pixel outside of the clip keeps the bytes it had, if there were as many
/// bytes as there are now.
pub proof fn law_each_pixel_has_its_four_bytes<F: Fn(Rgba) -> Rgba8>(
    fb: Framebuffer,
    clip: Option<ClipRect>,
    convert: F,
    before: Seq<u8>,
    bytes: Seq<u8>,
    x: int,
    y: int,
)
    requires
        bytes_written(fb, clip, convert, before, bytes),
        0 <= x < fb.width,
        0 <= y < fb.height,
    ensures
        bytes.len() == fb.width * fb.height * 4,
        ({
            let at = (y * fb.width + x) * 4;
            let shows = clip matches Some(c) ==> c.0 <= x < c.2 && c.1 <= y < c.3;
            &&& shows ==> exists|p: Rgba8| #[trigger]
                call_ensures(convert, (fb.color@[y * fb.width + x],), p) && bytes[at] == p.r
                    && bytes[at + 1] == p.g && bytes[at + 2] == p.b && bytes[at + 3] == p.a
            &&& !shows && before.len() == bytes.len() ==> bytes[at] == before[at] && bytes[at + 1]
                == before[at + 1] && bytes[at + 2] == before[at + 2] && bytes[at + 3] == before[at
                + 3]
            &&& !shows && before.len() != bytes.len() ==> bytes[at] == 0 && bytes[at + 1] == 0
                && bytes[at + 2] == 0 && bytes[at + 3] == 0
        }),
{
    let w = fb.width as int;
    let i = y * w + x;
    lemma_row_and_column(x, y, w);
    lemma_index_in_range(x, y, w, fb.height as int);
    let p = pixel_at(bytes, i);
    assert(shown(i, w, clip) ==> call_ensures(convert, (fb.color@[i],), p));
    let old_bytes = prepared(before, fb.width * fb.height * 4);
    assert(!shown(i, w, clip) ==> p == pixel_at(old_bytes, i));
}

/// All bytes are those of the pixels in their places when all of them are made anew.
pub proof fn law_all_pixels_have_their_four_bytes<F: Fn(Rgba) -> Rgba8>(
    fb: Framebuffer,
    convert: F,
    bytes: Seq<u8>,
    i: int,
)
    requires
        bytes_given(fb, convert, bytes),
        0 <= i < fb.width * fb.height,
    ensures
        bytes.len() == fb.width * fb.height * 4,
        exists|p: Rgba8| #[trigger]
            call_ensures(convert, (fb.color@[i],), p) && bytes[i * 4] == p.r && bytes[i * 4 + 1]
                == p.g && bytes[i * 4 + 2] == p.b && bytes[i * 4 + 3] == p.a,
{
    let p = pixel_at(bytes, i);
    assert(call_ensures(convert, (fb.color@[i],), p));
}

/// Padding keeps what is there, and adds zeros up to the length, if that is greater.
pub proof fn law_padding_adds_zeros(values: Seq<F32>, len: nat)
    ensures
        padded(values, len).len() == if values.len() >= len { values.len() } else { len },
        padded(values, len).take(values.len() as int) == values,
        forall|i: int|
            values.len() <= i < padded(values, len).len() ==> (#[trigger] padded(
                values,
                len,
            )[i]).bits == 0,
{
    assert(padded(values, len).take(values.len() as int) =~= values);
}

/// Painting a triangle gives every pixel that it covers, and that nothing hides, the colour of
/// the shader, blended over what was there: where the triangle lies as deep as what is there,
/// too. Every other pixel stays.
pub proof fn law_triangles_are_painted_over_what_is_as_deep<
    K: Copy,
    S: Fn(K, i32, i32) -> PixelSample,
    H: Fn(K, i32, i32, u32, u32) -> Shading,
    B: Fn(Rgba, Rgba) -> Rgba,
>(
    band: Band,
    color: &mut [Rgba],
    depth_buf: &mut [F32],
    triangle: Triangle,
    clip: Option<ClipRect>,
    key: K,
    sample: &S,
    shade: &H,
    blend: &B,
    counts: RasterCounts,
    x: int,
    y: int,
    p: PixelSample,
    c: Rgba,
)
    requires
        call_ensures(
            rasterize_triangle_rows::<K, S, H, B>,
            (band, color, depth_buf, triangle, clip, key, sample, shade, blend),
            counts,
        ),
        0 <= x < band.width,
        band.row_start <= y < band.row_end <= band.height,
        old(color)@.len() >= (band.row_end - band.row_start) * band.width,
        old(depth_buf)@.len() >= (band.row_end - band.row_start) * band.width,
        triangle.vary_lens.0 == triangle.vary_lens.1 == triangle.vary_lens.2,
        0x3400_0000 < triangle.area.bits <= 0x7f80_0000 || 0xb400_0000 < triangle.area.bits
            <= 0xff80_0000,
        forall|q: PixelSample| #[trigger]
            call_ensures(*sample, (key, x as i32, y as i32), q) ==> q == p,
        forall|t: Shading| #[trigger]
            call_ensures(
                *shade,
                (key, x as i32, y as i32, (x % 2) as u32, (y % 2) as u32),
                t,
            ) ==> t == Shading::Colored(c),
        well_inside(p.e0) && well_inside(p.e1) && well_inside(p.e2),
    ensures
        final(color)@.len() == old(color)@.len(),
        final(depth_buf)@.len() == old(depth_buf)@.len(),
        ({
            let i = (y - band.row_start) * band.width + x;
            let (c0, d0) = (old(color)@[i], old(depth_buf)@[i]);
            let (c1, d1) = (final(color)@[i], final(depth_buf)@[i]);
            let visible = triangle.extent.min_x <= x <= triangle.extent.max_x
                && triangle.extent.min_y <= y <= triangle.extent.max_y && (clip matches Some(r)
                ==> r.0 <= x < r.2 && r.1 <= y < r.3);
            &&& visible && !p.depth.gt(d0) ==> call_ensures(*blend, (c, c0), c1) && (
            0x3ca3_d70a < c.a.bits <= 0x7f80_0000 ==> d1 == p.depth) && (c.a.bits <= 0x3ca3_d70a
                ==> d1 == d0)
            &&& !visible || p.depth.gt(d0) ==> c1 == c0 && d1 == d0
        }),
{
    law_each_pixel_is_painted_in_its_place(
        key,
        *sample,
        *shade,
        *blend,
        band,
        triangle,
        clip,
        old(color)@,
        old(depth_buf)@,
        final(color)@,
        final(depth_buf)@,
        counts,
        x,
        y,
    );
}

/// The walk over a triangle visits the part of its box that lies in the band, on screen and in
/// the clip, rows counted from the first of the band; none if there is no such part.
pub proof fn law_a_triangle_is_visited_where_it_is_visible(
    extent: Extent,
    width: usize,
    row_start: usize,
    row_end: usize,
    clip: Option<ClipRect>,
    r: Option<Window>,
    x: int,
    y: int,
)
    requires
        call_ensures(triangle_window, (extent, width, row_start, row_end, clip), r),
    ensures
        ({
            let visible = 0 <= x < width && row_start <= y < row_end && extent.min_x <= x
                <= extent.max_x && extent.min_y <= y <= extent.max_y && (clip matches Some(c)
                ==> c.0 <= x < c.2 && c.1 <= y < c.3);
            match r {
                Some(w) => visible <==> w.left <= x < w.right && row_start + w.top <= y < row_start
                    + w.bottom,
                None => !visible,
            }
        }),
{
}

/// What decides of a triangle and of its edges, from the bits of the numbers.
pub proof fn law_triangles_are_judged_by_their_numbers(
    area: F32,
    w: Winding,
    dx: F32,
    dy: F32,
    top_left: bool,
    value: F32,
    on: bool,
    inside: bool,
)
    requires
        call_ensures(winding, (area,), w),
        call_ensures(is_top_left, (dx, dy), top_left),
        call_ensures(edge_pass, (value, on), inside),
    ensures
        area.bits <= 0x3400_0000 || 0x8000_0000 <= area.bits <= 0xb400_0000 ==> w
            == Winding::Degenerate,
        0x3400_0000 < area.bits <= 0x7f80_0000 ==> w == Winding::Forward,
        0xb400_0000 < area.bits <= 0xff80_0000 ==> w == Winding::Backward,
        0 < dy.bits <= 0x7f80_0000 ==> top_left,
        0x8000_0000 < dy.bits <= 0xff80_0000 ==> !top_left,
        (dy.bits == 0 || dy.bits == 0x8000_0000) && 0x8000_0000 < dx.bits <= 0xff80_0000
            ==> top_left,
        (dy.bits == 0 || dy.bits == 0x8000_0000) && dx.bits <= 0x7f80_0000 ==> !top_left,
        0 < value.bits <= 0x7f80_0000 ==> inside,
        0xb586_37bd < value.bits <= 0xff80_0000 ==> !inside,
        value.bits == 0 || 0x8000_0000 <= value.bits <= 0xb586_37bd ==> inside == on,
{
}

/// What is set of the clip is what is asked of it afterwards: a suspended clip leaves nothing
/// out, and otherwise a forced clip comes before the damage that was set last.
pub proof fn law_the_clip_is_what_was_set(
    first: &mut ClipState,
    damage: Option<ClipRect>,
    second: &mut ClipState,
    suspended: bool,
    r: Option<ClipRect>,
)
    requires
        call_ensures(set_damage_rect, (first, damage), ()),
        *old(second) == *final(first),
        call_ensures(set_clip_suspended, (second, suspended), ()),
        call_ensures(headless_clip_rect, (&*final(second),), r),
    ensures
        suspended ==> r is None,
        !suspended && old(first).forced is Some ==> r == old(first).forced,
        !suspended && old(first).forced is None ==> r == damage,
        final(second).forced == old(first).forced,
{
}

/// A clip is forced by a setting of four numbers, which are its corner and its size.
pub proof fn law_a_clip_is_forced_by_its_corner_and_size(
    a: nat,
    b: nat,
    w: nat,
    h: nat,
    raw: &str,
    r: ClipState,
)
    requires
        raw@ == text::separated(
            seq![text::dec_text(a), text::dec_text(b), text::dec_text(w), text::dec_text(h)],
            ',',
        ),
        a + w <= i32::MAX,
        b + h <= i32::MAX,
        call_ensures(ClipState::new, (Some(raw),), r),
    ensures
        r.forced matches Some(c) && c.0 == a && c.1 == b && c.2 == a + w && c.3 == b + h,
        r.damage is None,
        !r.suspended,
{
    let parts = seq![
        text::dec_text(a),
        text::dec_text(b),
        text::dec_text(w),
        text::dec_text(h),
    ];
    lemma_plain_numeral(a);
    lemma_plain_numeral(b);
    lemma_plain_numeral(w);
    lemma_plain_numeral(h);
    assert forall|i: int, k: int| 0 <= i < parts.len() && 0 <= k < parts[i].len() implies
        #[trigger] parts[i][k] != ',' by {
        assert(i == 0 || i == 1 || i == 2 || i == 3);
        assert(text::is_digit(parts[i][k]));
    }
    text::law_pieces_are_what_stands_between_separators(raw@, parts, ',');
    reveal_with_fuel(numerals, 5);
    let (p3, p2, p1) = (parts.drop_last(), parts.drop_last().drop_last(), seq![parts[0]]);
    assert(p2.drop_last() =~= p1);
    assert(p1.drop_last() =~= Seq::<Seq<char>>::empty());
    assert(p3.last() == parts[2] && p2.last() == parts[1] && p1.last() == parts[0]);
    assert(numerals(parts) =~= seq![a as int, b as int, w as int, h as int]);
}

proof fn lemma_plain_numeral(n: nat)
    ensures
        text::all_digits(text::dec_text(n)),
        text::trimmed(text::dec_text(n)) == text::dec_text(n),
        n <= i32::MAX ==> text::i32_value(text::dec_text(n)) == Some(n as int),
{
    let s = text::dec_text(n);
    text::law_decimal_is_read_back(n);
    text::law_numerals_are_read(n, i32::MAX as int);
    text::law_trimming_takes_white_space_at_the_ends(s);
    let t = text::trimmed(s);
    let (front, back) = choose|front: Seq<char>, back: Seq<char>|
        #![trigger front + t + back]
        s == front + t + back && text::all_white(front) && text::all_white(back);
    if front.len() > 0 {
        assert(s[0] == front[0]);
        assert(text::is_digit(s[0]));
    }
    if back.len() > 0 {
        let k = s.len() - 1;
        assert(s[k] == back[back.len() - 1]);
        assert(text::is_digit(s[k]));
    }
    assert(t =~= s);
}

/// A new framebuffer is clear and far away; clearing sets every pixel; and clearing a
/// rectangle sets the pixels in it, and no others.
pub proof fn law_framebuffers_are_cleared(
    width: usize,
    height: usize,
    new: Framebuffer,
    whole: &mut Framebuffer,
    part: &mut Framebuffer,
    color: Rgba,
    depth: F32,
    rect: (i32, i32, i32, i32),
    x: int,
    y: int,
)
    requires
        call_ensures(Framebuffer::new, (width, height), new),
        call_ensures(Framebuffer::clear, (whole, color, depth), ()),
        call_ensures(
            Framebuffer::clear_rect,
            (part, color, depth, rect.0, rect.1, rect.2, rect.3),
            (),
        ),
        old(whole).wf() && old(whole).width == width && old(whole).height == height,
        old(part).wf() && old(part).width == width && old(part).height == height,
        0 <= x < width,
        0 <= y < height,
    ensures
        ({
            let i = y * width + x;
            &&& new.color@[i].r.bits == 0 && new.color@[i].g.bits == 0 && new.color@[i].b.bits == 0
                && new.color@[i].a.bits == 0 && new.depth@[i].bits == 0x3f80_0000
            &&& final(whole).color@[i] == color && final(whole).depth@[i] == depth
            &&& rect.0 <= x < rect.2 && rect.1 <= y < rect.3 ==> final(part).color@[i] == color
                && final(part).depth@[i] == depth
            &&& !(rect.0 <= x < rect.2 && rect.1 <= y < rect.3) ==> final(part).color@[i] == old(
                part,
            ).color@[i] && final(part).depth@[i] == old(part).depth@[i]
        }),
{
    let w = width as int;
    lemma_row_and_column(x, y, w);
    lemma_index_in_range(x, y, w, height as int);
}

/// The bytes of a framebuffer are those of its pixels, four for each, row by row, red first
/// and alpha last.
pub proof fn law_bytes_are_those_of_the_pixels<F: Fn(Rgba) -> Rgba8>(
    fb: &Framebuffer,
    convert: &F,
    bytes: Vec<u8>,
    x: int,
    y: int,
)
    requires
        fb.wf(),
        call_ensures(Framebuffer::to_rgba8::<F>, (fb, convert), bytes),
        0 <= x < fb.width,
        0 <= y < fb.height,
    ensures
        bytes@.len() == fb.width * fb.height * 4,
        ({
            let at = (y * fb.width + x) * 4;
            exists|p: Rgba8| #[trigger]
                call_ensures(*convert, (fb.color@[y * fb.width + x],), p) && bytes@[at] == p.r
                    && bytes@[at + 1] == p.g && bytes@[at + 2] == p.b && bytes@[at + 3] == p.a
        }),
{
    lemma_index_in_range(x, y, fb.width as int, fb.height as int);
    law_all_pixels_have_their_four_bytes(*fb, *convert, bytes@, y * fb.width + x);
}

/// A flat varying has the value of the first corner and does not change from pixel to pixel;
/// the others keep what was interpolated. Room for varyings is made with zeros behind those
/// that are there.
pub proof fn law_flat_varyings_are_those_of_the_first_corner(
    scratch: &mut RasterScratch,
    first: &[F32],
    flat_slots: usize,
    derivs: &mut TriangleDerivatives,
    room: &mut RasterScratch,
    vary_len: usize,
    i: int,
)
    requires
        flat_slots <= first@.len(),
        flat_slots <= old(scratch).interp@.len(),
        flat_slots <= old(derivs).dvary_dx@.len(),
        flat_slots <= old(derivs).dvary_dy@.len(),
        call_ensures(RasterScratch::hold_flat_slots, (scratch, first, flat_slots), ()),
        call_ensures(flatten_derivatives, (derivs, flat_slots), ()),
        call_ensures(RasterScratch::ensure_vary_len, (room, vary_len, true), ()),
        0 <= i,
    ensures
        final(scratch).interp@.len() == old(scratch).interp@.len(),
        i < flat_slots ==> final(scratch).interp@[i] == first@[i],
        flat_slots <= i < old(scratch).interp@.len() ==> final(scratch).interp@[i] == old(
            scratch,
        ).interp@[i],
        final(derivs).dvary_dx@.len() == old(derivs).dvary_dx@.len(),
        final(derivs).dvary_dy@.len() == old(derivs).dvary_dy@.len(),
        i < flat_slots ==> final(derivs).dvary_dx@[i].bits == 0 && final(derivs).dvary_dy@[i].bits
            == 0,
        flat_slots <= i < old(derivs).dvary_dx@.len() ==> final(derivs).dvary_dx@[i] == old(
            derivs,
        ).dvary_dx@[i],
        flat_slots <= i < old(derivs).dvary_dy@.len() ==> final(derivs).dvary_dy@[i] == old(
            derivs,
        ).dvary_dy@[i],
        final(room).interp@.len() >= vary_len,
        final(room).interp_dx@.len() >= vary_len && final(room).interp_dy@.len() >= vary_len,
        final(room).derivs.dvary_dx@.len() >= vary_len && final(room).derivs.dvary_dy@.len()
            >= vary_len,
        i < old(room).interp@.len() ==> final(room).interp@[i] == old(room).interp@[i],
        old(room).interp@.len() <= i < vary_len ==> final(room).interp@[i].bits == 0,
{
    law_padding_adds_zeros(old(room).interp@, vary_len as nat);
    law_padding_adds_zeros(old(room).interp_dx@, vary_len as nat);
    law_padding_adds_zeros(old(room).interp_dy@, vary_len as nat);
    law_padding_adds_zeros(old(room).derivs.dvary_dx@, vary_len as nat);
    law_padding_adds_zeros(old(room).derivs.dvary_dy@, vary_len as nat);
}

} // verus!
