//! Drawing filled rectangles into the editor's pixel buffer, with alpha blending.

use vstd::prelude::*;
use vstd::arithmetic::div_mod::{lemma_fundamental_div_mod, lemma_fundamental_div_mod_converse};

verus! {

/// A width and height in pixels.
#[derive(Clone, Copy, Debug, PartialEq, Eq, Structural)]
pub struct Canvas {
    pub w: i32,
    pub h: i32,
}

/// A position in pixels.
#[derive(Clone, Copy, Debug, PartialEq, Eq, Structural)]
pub struct Offset {
    pub x: i32,
    pub y: i32,
}

/// The buffer's byte order for a colour given as `0xAARRGGBB`: red and blue swap places.
pub open spec fn swizzle(c: u32) -> u32 {
    (c & 0xFF00FF00) | ((c & 0x00FF0000) >> 16) | ((c & 0x000000FF) << 16)
}

pub open spec fn alpha_of(color: u32) -> u32 {
    (color >> 24) & 0xFF
}

/// `color` with opacity `alpha` laid over `current`: straight over an empty
/// (fully transparent) pixel, else each channel mixed in proportion to
/// `alpha`, the result fully opaque.
pub open spec fn blend(current: u32, color: u32, alpha: u32) -> u32 {
    if current & 0xFF000000 == 0 {
        color
    } else {
        let n_alpha = (255 - alpha) as u32;
        let rb = (((n_alpha * (current & 0x00FF00FF)) + (alpha * (color & 0x00FF00FF))) as u32) >> 8;
        let ag = ((n_alpha * ((current & 0xFF00FF00) >> 8)) + (alpha * (0x01000000 | ((color & 0x0000FF00) >> 8)))) as u32;
        (rb & 0x00FF00FF) | (ag & 0xFF00FF00)
    }
}

/// What a pixel becomes under a rectangle of `color` (already swizzled):
/// nothing happens for a transparent colour, an opaque one overwrites, any
/// other blends.
pub open spec fn paint(current: u32, color: u32) -> u32 {
    let alpha = alpha_of(color);
    if alpha == 0 {
        current
    } else if alpha == 255 {
        color
    } else {
        blend(current, color, alpha)
    }
}

/// Whether pixel `(x, y)` lies both in the rectangle at `screen` of size
/// `offset` and on the canvas.
pub open spec fn in_rect(x: int, y: int, canvas: Canvas, offset: Canvas, screen: Offset) -> bool {
    screen.x <= x < screen.x + offset.w && screen.y <= y < screen.y + offset.h && 0 <= x < canvas.w && 0 <= y < canvas.h
}

/// Whether the pixel stored at index `i` (row by row, `canvas.w` to a row) is covered.
pub open spec fn covered(i: int, canvas: Canvas, offset: Canvas, screen: Offset) -> bool {
    canvas.w > 0 && in_rect(i % (canvas.w as int), i / (canvas.w as int), canvas, offset, screen)
}

fn blend_pixel(current: u32, color: u32, alpha: u32) -> (r: u32)
    requires
        0 < alpha < 255,
    ensures
        r == blend(current, color, alpha),
{
    if current & 0xFF000000 == 0 {
        color
    } else {
        let n_alpha: u32 = 255 - alpha;
        let c_rb = current & 0x00FF00FF;
        let k_rb = color & 0x00FF00FF;
        let c_ag = (current & 0xFF00FF00) >> 8;
        let k_ag = 0x01000000 | ((color & 0x0000FF00) >> 8);
        assert(c_rb <= 0x00FF00FF && k_rb <= 0x00FF00FF) by (bit_vector)
            requires c_rb == current & 0x00FF00FF, k_rb == color & 0x00FF00FF;
        assert(c_ag <= 0x00FF00FF && k_ag <= 0x010000FF) by (bit_vector)
            requires c_ag == (current & 0xFF00FF00) >> 8, k_ag == 0x01000000 | ((color & 0x0000FF00) >> 8);
        assert(n_alpha * c_rb + alpha * k_rb <= 255 * 0x00FF00FF) by (nonlinear_arith)
            requires n_alpha + alpha == 255, c_rb <= 0x00FF00FF, k_rb <= 0x00FF00FF;
        assert(n_alpha * c_ag + alpha * k_ag <= 0xFEFFFE01) by (nonlinear_arith)
            requires n_alpha + alpha == 255, 0 < alpha < 255, c_ag <= 0x00FF00FF, k_ag <= 0x010000FF;
        let rb = ((n_alpha * c_rb) + (alpha * k_rb)) >> 8;
        let ag = (n_alpha * c_ag) + (alpha * k_ag);
        (rb & 0x00FF00FF) | (ag & 0xFF00FF00)
    }
}

proof fn lemma_index_of(x: int, y: int, w: int)
    requires
        0 <= x < w,
        0 <= y,
    ensures
        (y * w + x) % w == x,
        (y * w + x) / w == y,
{
    lemma_fundamental_div_mod_converse(y * w + x, w, y, x);
}

proof fn lemma_same_pixel(i: int, x: int, y: int, w: int)
    requires
        w > 0,
        i % w == x,
        i / w == y,
    ensures
        i == y * w + x,
{
    lemma_fundamental_div_mod(i, w);
    assert(w * (i / w) == y * w) by (nonlinear_arith)
        requires i / w == y;
}

/// Fills the rectangle of size `offset` at `screen` with `cosmic_color`
/// (`0xAARRGGBB`) on a canvas stored row by row in `buffer`, clipped to the
/// canvas (see [`paint`]). Every covered pixel must lie inside the buffer,
/// and the rectangle's far edges must be representable.
pub fn draw_rect(buffer: &mut Vec<u32>, canvas: Canvas, offset: Canvas, screen: Offset, cosmic_color: u32)
    requires
        i32::MIN <= screen.x + offset.w <= i32::MAX,
        i32::MIN <= screen.y + offset.h <= i32::MAX,
        forall|x: int, y: int| #[trigger] in_rect(x, y, canvas, offset, screen) ==> y * canvas.w + x < old(buffer)@.len(),
    ensures
        final(buffer)@.len() == old(buffer)@.len(),
        forall|i: int| 0 <= i < old(buffer)@.len() ==> #[trigger] final(buffer)@[i] == (if covered(i, canvas, offset, screen) {
            paint(old(buffer)@[i], swizzle(cosmic_color))
        } else {
            old(buffer)@[i]
        }),
{
    let mut color: u32 = cosmic_color & 0xFF00FF00;
    color = color | ((cosmic_color & 0x00FF0000) >> 16);
    color = color | ((cosmic_color & 0x000000FF) << 16);
    assert(color == swizzle(cosmic_color));
    let alpha = (color >> 24) & 0xFF;
    assert(alpha <= 255) by (bit_vector)
        requires alpha == (color >> 24) & 0xFF;
    if alpha == 0 {
        assert forall|i: int| 0 <= i < old(buffer)@.len() implies #[trigger] buffer@[i] == (if covered(i, canvas, offset, screen) {
            paint(old(buffer)@[i], swizzle(cosmic_color))
        } else {
            old(buffer)@[i]
        }) by {}
        return;
    }
    let ghost old_buf = buffer@;
    let len: usize = buffer.len();
    let ghost w = canvas.w as int;
    let end_x = screen.x + offset.w;
    let end_y = screen.y + offset.h;
    let mut y: i32 = screen.y;
    while y < end_y
        invariant
            alpha == alpha_of(color),
            0 < alpha <= 255,
            len == old_buf.len(),
            color == swizzle(cosmic_color),
            end_x == screen.x + offset.w,
            end_y == screen.y + offset.h,
            w == canvas.w,
            screen.y <= y,
            buffer@.len() == old_buf.len(),
            forall|x: int, yy: int| #[trigger] in_rect(x, yy, canvas, offset, screen) ==> yy * canvas.w + x < old_buf.len(),
            forall|i: int| 0 <= i < old_buf.len() ==> #[trigger] buffer@[i] == (if covered(i, canvas, offset, screen) && i / w < y {
                paint(old_buf[i], color)
            } else {
                old_buf[i]
            }),
        decreases end_y - y,
    {
        let mut x: i32 = screen.x;
        while x < end_x
            invariant
                alpha == alpha_of(color),
                0 < alpha <= 255,
                len == old_buf.len(),
                end_x == screen.x + offset.w,
                end_y == screen.y + offset.h,
                w == canvas.w,
                screen.y <= y < end_y,
                screen.x <= x,
                buffer@.len() == old_buf.len(),
                forall|xx: int, yy: int| #[trigger] in_rect(xx, yy, canvas, offset, screen) ==> yy * canvas.w + xx < old_buf.len(),
                forall|i: int| 0 <= i < old_buf.len() ==> #[trigger] buffer@[i] == (if covered(i, canvas, offset, screen) && (i / w < y || (i / w == y && i % w < x)) {
                    paint(old_buf[i], color)
                } else {
                    old_buf[i]
                }),
            decreases end_x - x,
        {
            if x >= 0 && x < canvas.w && y >= 0 && y < canvas.h {
                assert(in_rect(x as int, y as int, canvas, offset, screen));
                assert(y * canvas.w + x < old_buf.len());
                assert(0 <= y * canvas.w) by (nonlinear_arith)
                    requires 0 <= y, 0 <= canvas.w;
                let k = (y as usize) * (canvas.w as usize) + (x as usize);
                proof {
                    lemma_index_of(x as int, y as int, w);
                }
                let current = buffer[k];
                assert(current == old_buf[k as int]) by {
                    assert(!(k as int / w < y || (k as int / w == y && k as int % w < x)));
                }
                let painted = if alpha == 255 { color } else { blend_pixel(current, color, alpha) };
                buffer.set(k, painted);
                proof {
                    assert forall|i: int| 0 <= i < old_buf.len() implies #[trigger] buffer@[i] == (if covered(i, canvas, offset, screen) && (i / w < y || (i / w == y && i % w < x + 1)) {
                        paint(old_buf[i], color)
                    } else {
                        old_buf[i]
                    }) by {
                        if i != k as int {
                            if i / w == y && i % w == x {
                                lemma_same_pixel(i, x as int, y as int, w);
                            }
                        }
                    }
                }
            } else {
                proof {
                    assert forall|i: int| 0 <= i < old_buf.len() implies #[trigger] buffer@[i] == (if covered(i, canvas, offset, screen) && (i / w < y || (i / w == y && i % w < x + 1)) {
                        paint(old_buf[i], color)
                    } else {
                        old_buf[i]
                    }) by {
                        if covered(i, canvas, offset, screen) && i / w == y && i % w == x {
                            assert(false);
                        }
                    }
                }
            }
            x = x + 1;
        }
        proof {
            assert forall|i: int| 0 <= i < old_buf.len() implies #[trigger] buffer@[i] == (if covered(i, canvas, offset, screen) && i / w < y + 1 {
                paint(old_buf[i], color)
            } else {
                old_buf[i]
            }) by {
                if covered(i, canvas, offset, screen) && i / w == y {
                    assert(i % w < end_x);
                }
            }
        }
        y = y + 1;
    }
    proof {
        assert forall|i: int| 0 <= i < old_buf.len() implies #[trigger] buffer@[i] == (if covered(i, canvas, offset, screen) {
            paint(old_buf[i], swizzle(cosmic_color))
        } else {
            old_buf[i]
        }) by {
            if covered(i, canvas, offset, screen) {
                assert(i / w < end_y);
            }
        }
    }
}

/// The line numbers the gutter shows for the visual lines on screen, given
/// the (zero-based) text line of each visual line in order: one number per
/// text line, counting from one, wrapped continuations of the same line
/// left blank.
pub open spec fn gutter_numbers_spec(run_lines: Seq<usize>) -> Seq<usize>
    decreases run_lines.len(),
{
    if run_lines.len() == 0 {
        Seq::empty()
    } else {
        let rest = gutter_numbers_spec(run_lines.drop_last());
        let n = number_of(run_lines.last());
        if n == last_number(run_lines.drop_last()) { rest } else { rest.push(n) }
    }
}

/// The number shown for text line `line`: one more, stopping at the largest value.
pub open spec fn number_of(line: usize) -> usize {
    if line < usize::MAX { (line + 1) as usize } else { usize::MAX }
}

/// The number of the last visual line seen so far (zero before any).
pub open spec fn last_number(run_lines: Seq<usize>) -> usize {
    if run_lines.len() == 0 { 0 } else { number_of(run_lines.last()) }
}

/// The line numbers to draw in the gutter (see [`gutter_numbers_spec`]).
pub fn gutter_numbers(run_lines: &Vec<usize>) -> (r: Vec<usize>)
    ensures
        r@ == gutter_numbers_spec(run_lines@),
{
    let mut out: Vec<usize> = Vec::new();
    let mut last: usize = 0;
    let n: usize = run_lines.len();
    let mut i: usize = 0;
    while i < n
        invariant
            n == run_lines@.len(),
            i <= n,
            out@ == gutter_numbers_spec(run_lines@.take(i as int)),
            last == last_number(run_lines@.take(i as int)),
        decreases n - i,
    {
        let number = run_lines[i].saturating_add(1);
        let ghost pre = run_lines@.take(i + 1);
        assert(pre.drop_last() =~= run_lines@.take(i as int));
        assert(pre.last() == run_lines@[i as int]);
        if number != last {
            out.push(number);
        }
        last = number;
        i = i + 1;
    }
    assert(run_lines@.take(n as int) =~= run_lines@);
    out
}

/// The rows of the vertical scrollbar's thumb for a view of `image_h` rows
/// showing text lines `first` to `last` of `lines`: it starts at
/// `first * image_h / lines` and ends at `(last + 1) * image_h / lines`.
pub open spec fn scrollbar_span_spec(first: nat, last: nat, lines: nat, image_h: nat) -> (nat, nat) {
    ((first * image_h / lines) as nat, ((last + 1) * image_h / lines) as nat)
}

/// The text lines of the first and last visual lines on screen (the last
/// line is zero when nothing is laid out, and the first is then the last).
pub open spec fn shown_lines(run_lines: Seq<usize>) -> (nat, nat) {
    if run_lines.len() == 0 { (0, 0) } else { (run_lines[0] as nat, run_lines.last() as nat) }
}

/// The vertical extent of the scrollbar thumb (see [`scrollbar_span_spec`]).
/// The document has at least one line, and the sums and products fit in a `usize`.
pub fn scrollbar_span(run_lines: &Vec<usize>, lines: usize, image_h: usize) -> (r: (usize, usize))
    requires
        lines > 0,
        shown_lines(run_lines@).1 < usize::MAX,
        (shown_lines(run_lines@).1 + 1) * image_h <= usize::MAX,
        shown_lines(run_lines@).0 * image_h <= usize::MAX,
    ensures
        r.0 == scrollbar_span_spec(shown_lines(run_lines@).0, shown_lines(run_lines@).1, lines as nat, image_h as nat).0,
        r.1 == scrollbar_span_spec(shown_lines(run_lines@).0, shown_lines(run_lines@).1, lines as nat, image_h as nat).1,
{
    let n: usize = run_lines.len();
    let (first, last) = if n == 0 { (0, 0) } else { (run_lines[0], run_lines[n - 1]) };
    let start = first * image_h / lines;
    let end = (last + 1) * image_h / lines;
    (start, end)
}

/// Law: for lines that exist and are shown in order, the thumb runs
/// forwards and stays within the view.
pub proof fn lemma_scrollbar_within_view(first: nat, last: nat, lines: nat, image_h: nat)
    requires
        first <= last < lines,
    ensures
        scrollbar_span_spec(first, last, lines, image_h).0 <= scrollbar_span_spec(first, last, lines, image_h).1 <= image_h,
{
    assert(first * image_h <= (last + 1) * image_h) by (nonlinear_arith)
        requires first <= last + 1;
    assert((last + 1) * image_h <= lines * image_h) by (nonlinear_arith)
        requires last + 1 <= lines;
    vstd::arithmetic::div_mod::lemma_div_is_ordered((first * image_h) as int, ((last + 1) * image_h) as int, lines as int);
    vstd::arithmetic::div_mod::lemma_div_is_ordered(((last + 1) * image_h) as int, (lines * image_h) as int, lines as int);
    assert((lines * image_h) / lines == image_h) by (nonlinear_arith)
        requires lines > 0;
}

/// Law: every text line on screen gets its number drawn once: consecutive
/// numbers in the gutter differ.
pub proof fn lemma_gutter_numbers_distinct_neighbours(run_lines: Seq<usize>)
    ensures
        forall|i: int| 0 <= i < gutter_numbers_spec(run_lines).len() - 1 ==>
            #[trigger] gutter_numbers_spec(run_lines)[i] != gutter_numbers_spec(run_lines)[i + 1],
        gutter_numbers_spec(run_lines).len() > 0 ==> gutter_numbers_spec(run_lines).last() == last_number(run_lines),
        gutter_numbers_spec(run_lines).len() == 0 ==> last_number(run_lines) == 0,
    decreases run_lines.len(),
{
    if run_lines.len() > 0 {
        lemma_gutter_numbers_distinct_neighbours(run_lines.drop_last());
        let rest = gutter_numbers_spec(run_lines.drop_last());
        let g = gutter_numbers_spec(run_lines);
        assert forall|i: int| 0 <= i < g.len() - 1 implies #[trigger] g[i] != g[i + 1] by {
            if i + 1 < rest.len() {
                assert(g[i] == rest[i] && g[i + 1] == rest[i + 1]);
            } else {
                assert(g[i] == rest.last());
            }
        }
    }
}

} // verus!
