//! LS013B7DH03 display: layout of the frame buffer, pixel access and the
//! order of the SPI transfers.
//!
//! Each of the `HEIGHT` lines of the buffer is `LINE_TOTAL_BYTE_COUNT` bytes:
//! the on-wire line address (bits reversed), `WIDTH / 8` bytes of pixels and
//! one filler byte. A pixel is on when its bit is `0`; the bits of a byte are
//! sent most significant first, so pixel `x` of a byte is bit `7 - x % 8`.

use crate::bits::{lemma_byte_from_bits, lemma_mask_ops, msb_mask, reverse_bits, reversed};
use crate::display::DisplayFrame;
use crate::ls013b7dh03::LcdMode;
use vstd::prelude::*;

verus! {

/// The buffer size this driver needs
pub const BUF_SIZE: usize = HEIGHT * LINE_TOTAL_BYTE_COUNT;

/// The width, in pixels of the Ls013b7dh03 display
pub const WIDTH: usize = 128;

/// The height, in pixels of the Ls013b7dh03 display
pub const HEIGHT: usize = 128;

pub const LINE_WIDTH_BYTE_COUNT: usize = WIDTH / 8;

pub const LINE_PADDING_BYTE_COUNT: usize = 1;

pub const LINE_ADDRESS_BYTE_COUNT: usize = 1;

pub const LINE_TOTAL_BYTE_COUNT: usize = LINE_ADDRESS_BYTE_COUNT + LINE_WIDTH_BYTE_COUNT
    + LINE_PADDING_BYTE_COUNT;

/// LCD line filler byte
pub const FILLER_BYTE: u8 = 0xFF;

// ---------------------------------------------------------------------------
// The model of the buffer
// ---------------------------------------------------------------------------
/// The pixel `(x, y)` is one of the display's.
pub open spec fn in_frame(x: int, y: int) -> bool {
    0 <= x < WIDTH && 0 <= y < HEIGHT
}

/// Index in the buffer of the byte that holds pixel `(x, y)`.
pub open spec fn pixel_index(x: int, y: int) -> int {
    y * LINE_TOTAL_BYTE_COUNT + LINE_ADDRESS_BYTE_COUNT + x / 8
}

/// Mask of the bit that holds pixel column `x` within its byte.
pub open spec fn pixel_mask(x: int) -> u8 {
    msb_mask((x % 8) as u8)
}

/// Pixel `(x, y)` of the buffer `bytes` is on (its bit is `0`).
pub open spec fn pixel_on(bytes: Seq<u8>, x: int, y: int) -> bool {
    bytes[pixel_index(x, y)] & pixel_mask(x) == 0
}

/// `bytes` with pixel `(x, y)` set to `is_pixel_on` and every other bit unchanged.
pub open spec fn with_pixel(bytes: Seq<u8>, x: int, y: int, is_pixel_on: bool) -> Seq<u8> {
    let i = pixel_index(x, y);
    bytes.update(
        i,
        if is_pixel_on {
            bytes[i] & !pixel_mask(x)
        } else {
            bytes[i] | pixel_mask(x)
        },
    )
}

/// `bytes` with pixel `(x, y)` inverted and every other bit unchanged.
pub open spec fn with_pixel_flipped(bytes: Seq<u8>, x: int, y: int) -> Seq<u8> {
    let i = pixel_index(x, y);
    bytes.update(i, bytes[i] ^ pixel_mask(x))
}

/// The on-wire address of line `y`: the line number counted from 1, bits reversed.
pub open spec fn line_address(y: int) -> u8 {
    reversed((y + 1) as u8)
}

/// The byte that the layout fixes at index `i` of the buffer: the line
/// address at the start of a line, the filler byte at its end, and none
/// for a byte of pixels.
pub open spec fn layout_byte(i: int) -> Option<u8> {
    let k = i % (LINE_TOTAL_BYTE_COUNT as int);
    if k == 0 {
        Some(line_address(i / (LINE_TOTAL_BYTE_COUNT as int)))
    } else if k == LINE_TOTAL_BYTE_COUNT - 1 {
        Some(FILLER_BYTE)
    } else {
        None
    }
}

/// `bytes` is a buffer of the right size whose address and filler bytes are in place.
pub open spec fn is_frame_layout(bytes: Seq<u8>) -> bool {
    &&& bytes.len() == BUF_SIZE
    &&& forall|i: int|
        0 <= i < BUF_SIZE && (#[trigger] layout_byte(i)) is Some ==> bytes[i] == layout_byte(i)->0
}

/// The buffer with its layout written and every pixel set to `is_pixel_on`.
pub open spec fn initialized_bytes(is_pixel_on: bool) -> Seq<u8> {
    Seq::new(
        BUF_SIZE as nat,
        |i: int|
            match layout_byte(i) {
                Some(b) => b,
                None => if is_pixel_on {
                    0x00u8
                } else {
                    0xFFu8
                },
            },
    )
}

/// Draws one pixel given by plain coordinates: pixels outside the display are discarded.
pub open spec fn draw_one(bytes: Seq<u8>, pixel: (i32, i32, bool)) -> Seq<u8> {
    if in_frame(pixel.0 as int, pixel.1 as int) {
        with_pixel(bytes, pixel.0 as int, pixel.1 as int, pixel.2)
    } else {
        bytes
    }
}

/// Draws `pixels` in order.
pub open spec fn drawn(bytes: Seq<u8>, pixels: Seq<(i32, i32, bool)>) -> Seq<u8>
    decreases pixels.len(),
{
    if pixels.len() == 0 {
        bytes
    } else {
        draw_one(drawn(bytes, pixels.drop_last()), pixels.last())
    }
}

// ---------------------------------------------------------------------------
// Arithmetic of the layout
// ---------------------------------------------------------------------------
proof fn lemma_line_offset(y: int, k: int)
    requires
        0 <= k < LINE_TOTAL_BYTE_COUNT,
    ensures
        (y * LINE_TOTAL_BYTE_COUNT + k) / (LINE_TOTAL_BYTE_COUNT as int) == y,
        (y * LINE_TOTAL_BYTE_COUNT + k) % (LINE_TOTAL_BYTE_COUNT as int) == k,
{
    assert((y * 18 + k) / 18 == y && (y * 18 + k) % 18 == k) by (nonlinear_arith)
        requires
            0 <= k < 18,
    ;
}

proof fn lemma_line_bounds(y: int)
    requires
        0 <= y < HEIGHT,
    ensures
        0 <= y * LINE_TOTAL_BYTE_COUNT,
        (y + 1) * LINE_TOTAL_BYTE_COUNT == y * LINE_TOTAL_BYTE_COUNT + LINE_TOTAL_BYTE_COUNT,
        y * LINE_TOTAL_BYTE_COUNT + LINE_TOTAL_BYTE_COUNT <= BUF_SIZE,
{
    assert(0 <= y * 18 && (y + 1) * 18 == y * 18 + 18 && y * 18 + 18 <= 2304) by (nonlinear_arith)
        requires
            0 <= y < 128,
    ;
}

proof fn lemma_index_in_line(i: int)
    requires
        0 <= i < BUF_SIZE,
    ensures
        0 <= i / (LINE_TOTAL_BYTE_COUNT as int) < HEIGHT,
        0 <= i % (LINE_TOTAL_BYTE_COUNT as int) < LINE_TOTAL_BYTE_COUNT,
        i == (i / (LINE_TOTAL_BYTE_COUNT as int)) * LINE_TOTAL_BYTE_COUNT + i % (
        LINE_TOTAL_BYTE_COUNT as int),
{
    assert(0 <= i / 18 < 128 && 0 <= i % 18 < 18 && i == (i / 18) * 18 + i % 18) by (nonlinear_arith)
        requires
            0 <= i < 2304,
    ;
}

proof fn lemma_byte_offset(c: int, k: int)
    requires
        0 <= k < 8,
    ensures
        (c * 8 + k) / 8 == c,
        (c * 8 + k) % 8 == k,
{
    assert((c * 8 + k) / 8 == c && (c * 8 + k) % 8 == k) by (nonlinear_arith)
        requires
            0 <= k < 8,
    ;
}

/// Where pixel `(x, y)` lies: inside the buffer, in line `y`, between the
/// address byte and the filler byte.
proof fn lemma_pixel_position(x: int, y: int)
    requires
        in_frame(x, y),
    ensures
        0 <= pixel_index(x, y) < BUF_SIZE,
        layout_byte(pixel_index(x, y)) is None,
        (x % 8) < 8,
{
    assert(0 <= y * LINE_TOTAL_BYTE_COUNT <= 127 * 18) by (nonlinear_arith)
        requires
            LINE_TOTAL_BYTE_COUNT == 18,
            0 <= y < 128,
    ;
    lemma_line_offset(y, 1 + x / 8);
}

/// Two pixels share a byte and a bit only if they are the same pixel.
proof fn lemma_pixel_bits_distinct(x1: int, y1: int, x2: int, y2: int)
    requires
        in_frame(x1, y1),
        in_frame(x2, y2),
        pixel_index(x1, y1) == pixel_index(x2, y2),
        x1 % 8 == x2 % 8,
    ensures
        x1 == x2,
        y1 == y2,
{
    lemma_line_offset(y1, 1 + x1 / 8);
    lemma_line_offset(y2, 1 + x2 / 8);
}

/// What changing the bit of pixel `(x, y)` does to pixel `(x2, y2)`.
proof fn lemma_pixel_update(bytes: Seq<u8>, x: int, y: int, x2: int, y2: int)
    requires
        bytes.len() == BUF_SIZE,
        in_frame(x, y),
        in_frame(x2, y2),
    ensures
        pixel_on(with_pixel(bytes, x, y, true), x2, y2) == if x2 == x && y2 == y {
            true
        } else {
            pixel_on(bytes, x2, y2)
        },
        pixel_on(with_pixel(bytes, x, y, false), x2, y2) == if x2 == x && y2 == y {
            false
        } else {
            pixel_on(bytes, x2, y2)
        },
        pixel_on(with_pixel_flipped(bytes, x, y), x2, y2) == if x2 == x && y2 == y {
            !pixel_on(bytes, x, y)
        } else {
            pixel_on(bytes, x2, y2)
        },
{
    lemma_pixel_position(x, y);
    lemma_pixel_position(x2, y2);
    let i = pixel_index(x, y);
    let i2 = pixel_index(x2, y2);
    lemma_mask_ops(bytes[i], (x % 8) as u8, (x2 % 8) as u8);
    if i == i2 && x % 8 == x2 % 8 {
        lemma_pixel_bits_distinct(x, y, x2, y2);
    }
}

// ---------------------------------------------------------------------------
// Laws of the model
// ---------------------------------------------------------------------------
/// Reading a pixel after writing it gives the written state; every other
/// pixel keeps its state.
pub proof fn lemma_read_after_write(
    bytes: Seq<u8>,
    x: int,
    y: int,
    is_pixel_on: bool,
    x2: int,
    y2: int,
)
    requires
        bytes.len() == BUF_SIZE,
        in_frame(x, y),
        in_frame(x2, y2),
    ensures
        pixel_on(with_pixel(bytes, x, y, is_pixel_on), x2, y2) == if x2 == x && y2 == y {
            is_pixel_on
        } else {
            pixel_on(bytes, x2, y2)
        },
{
    lemma_pixel_update(bytes, x, y, x2, y2);
}

/// Flipping a pixel inverts its state; every other pixel keeps its state.
pub proof fn lemma_read_after_flip(bytes: Seq<u8>, x: int, y: int, x2: int, y2: int)
    requires
        bytes.len() == BUF_SIZE,
        in_frame(x, y),
        in_frame(x2, y2),
    ensures
        pixel_on(with_pixel_flipped(bytes, x, y), x2, y2) == if x2 == x && y2 == y {
            !pixel_on(bytes, x, y)
        } else {
            pixel_on(bytes, x2, y2)
        },
{
    lemma_pixel_update(bytes, x, y, x2, y2);
}

/// Flipping the same pixel twice gives the buffer back, byte for byte.
pub proof fn lemma_flip_twice(bytes: Seq<u8>, x: int, y: int)
    requires
        bytes.len() == BUF_SIZE,
        in_frame(x, y),
    ensures
        with_pixel_flipped(with_pixel_flipped(bytes, x, y), x, y) == bytes,
{
    lemma_pixel_position(x, y);
    let i = pixel_index(x, y);
    lemma_mask_ops(bytes[i], (x % 8) as u8, (x % 8) as u8);
    assert(with_pixel_flipped(with_pixel_flipped(bytes, x, y), x, y) =~= bytes);
}

/// Writing the state that a pixel already has leaves the buffer unchanged, byte for byte.
pub proof fn lemma_write_same_state(bytes: Seq<u8>, x: int, y: int)
    requires
        bytes.len() == BUF_SIZE,
        in_frame(x, y),
    ensures
        with_pixel(bytes, x, y, pixel_on(bytes, x, y)) == bytes,
{
    lemma_pixel_position(x, y);
    let i = pixel_index(x, y);
    lemma_mask_ops(bytes[i], (x % 8) as u8, (x % 8) as u8);
    assert(with_pixel(bytes, x, y, pixel_on(bytes, x, y)) =~= bytes);
}

/// Writing the same pixel state twice is the same as writing it once.
pub proof fn lemma_write_idempotent(bytes: Seq<u8>, x: int, y: int, is_pixel_on: bool)
    requires
        bytes.len() == BUF_SIZE,
        in_frame(x, y),
    ensures
        with_pixel(with_pixel(bytes, x, y, is_pixel_on), x, y, is_pixel_on) == with_pixel(
            bytes,
            x,
            y,
            is_pixel_on,
        ),
{
    let once = with_pixel(bytes, x, y, is_pixel_on);
    lemma_pixel_position(x, y);
    lemma_read_after_write(bytes, x, y, is_pixel_on, x, y);
    lemma_write_same_state(once, x, y);
}

/// Writing or flipping a pixel keeps the line addresses and filler bytes in place.
pub proof fn lemma_pixel_ops_keep_layout(bytes: Seq<u8>, x: int, y: int, is_pixel_on: bool)
    requires
        is_frame_layout(bytes),
        in_frame(x, y),
    ensures
        is_frame_layout(with_pixel(bytes, x, y, is_pixel_on)),
        is_frame_layout(with_pixel_flipped(bytes, x, y)),
{
    lemma_pixel_position(x, y);
}

/// Drawing any sequence of pixels keeps the line addresses and filler bytes in place.
pub proof fn lemma_drawing_keeps_layout(bytes: Seq<u8>, pixels: Seq<(i32, i32, bool)>)
    requires
        is_frame_layout(bytes),
    ensures
        is_frame_layout(drawn(bytes, pixels)),
    decreases pixels.len(),
{
    if pixels.len() > 0 {
        lemma_drawing_keeps_layout(bytes, pixels.drop_last());
        let p = pixels.last();
        if in_frame(p.0 as int, p.1 as int) {
            lemma_pixel_ops_keep_layout(drawn(bytes, pixels.drop_last()), p.0 as int, p.1 as int, p.2);
        }
    }
}

/// Where the pixels lie: the pixels of line `y` are the bytes between that
/// line's address byte and its filler byte, from left to right, the most
/// significant bit of a byte first.
pub proof fn lemma_pixel_order(x: int, y: int)
    requires
        in_frame(x, y),
    ensures
        y * LINE_TOTAL_BYTE_COUNT < pixel_index(x, y) < y * LINE_TOTAL_BYTE_COUNT + LINE_TOTAL_BYTE_COUNT
            - 1,
        x == 0 ==> pixel_index(x, y) == y * LINE_TOTAL_BYTE_COUNT + 1 && pixel_mask(x) == 0x80u8,
        x + 1 < WIDTH ==> (if pixel_mask(x) == 0x01u8 {
            pixel_index(x + 1, y) == pixel_index(x, y) + 1 && pixel_mask(x + 1) == 0x80u8
        } else {
            pixel_index(x + 1, y) == pixel_index(x, y) && pixel_mask(x + 1) == pixel_mask(x) >> 1u8
        }),
{
    let k = (x % 8) as u8;
    assert(x == (x / 8) * 8 + x % 8 && 0 <= x % 8 < 8) by (nonlinear_arith)
        requires
            x >= 0,
    ;
    assert(k < 8 ==> (msb_mask(k) == 0x01u8 <==> k == 7)) by (bit_vector);
    assert(k < 7 ==> msb_mask((k + 1) as u8) == msb_mask(k) >> 1u8) by (bit_vector);
    assert(msb_mask(0) == 0x80u8) by (bit_vector);
    if x % 8 == 7 {
        lemma_byte_offset(x / 8 + 1, 0);
    } else {
        lemma_byte_offset(x / 8, x % 8 + 1);
    }
    assert(LINE_TOTAL_BYTE_COUNT == 18);
}

/// In a buffer whose layout is in place, the first byte of line `y` holds
/// `y + 1` with its bits reversed (line addresses count from 1), and the
/// last byte of the line is the filler byte `0xFF`.
pub proof fn lemma_layout_line_bytes(bytes: Seq<u8>, y: int)
    requires
        is_frame_layout(bytes),
        0 <= y < HEIGHT,
    ensures
        reversed(bytes[y * LINE_TOTAL_BYTE_COUNT]) == y + 1,
        bytes[y * LINE_TOTAL_BYTE_COUNT + LINE_TOTAL_BYTE_COUNT - 1] == 0xFFu8,
{
    lemma_line_bounds(y);
    lemma_line_offset(y, 0);
    lemma_line_offset(y, LINE_TOTAL_BYTE_COUNT - 1);
    assert(layout_byte(y * LINE_TOTAL_BYTE_COUNT) is Some);
    assert(layout_byte(y * LINE_TOTAL_BYTE_COUNT + LINE_TOTAL_BYTE_COUNT - 1) is Some);
    crate::bits::lemma_reversed_involution((y + 1) as u8);
}

/// The pixel `p` is drawn at `(x, y)`.
pub open spec fn pixel_at(p: (i32, i32, bool), x: int, y: int) -> bool {
    p.0 as int == x && p.1 as int == y
}

/// Drawing keeps the size of the buffer.
pub proof fn lemma_drawn_len(bytes: Seq<u8>, pixels: Seq<(i32, i32, bool)>)
    requires
        bytes.len() == BUF_SIZE,
    ensures
        drawn(bytes, pixels).len() == BUF_SIZE,
    decreases pixels.len(),
{
    if pixels.len() > 0 {
        lemma_drawn_len(bytes, pixels.drop_last());
        let p = pixels.last();
        if in_frame(p.0 as int, p.1 as int) {
            lemma_pixel_position(p.0 as int, p.1 as int);
        }
    }
}

/// After drawing a list of pixels, a pixel of the display that occurs in the
/// list has the state of its last occurrence, and a pixel of the display that
/// does not occur keeps its state.
pub proof fn lemma_drawn_pixel_state(
    bytes: Seq<u8>,
    pixels: Seq<(i32, i32, bool)>,
    x: int,
    y: int,
)
    requires
        bytes.len() == BUF_SIZE,
        in_frame(x, y),
    ensures
        forall|j: int|
            0 <= j < pixels.len() && pixel_at(#[trigger] pixels[j], x, y) && (forall|k: int|
                j < k < pixels.len() ==> !pixel_at(#[trigger] pixels[k], x, y)) ==> pixel_on(
                drawn(bytes, pixels),
                x,
                y,
            ) == pixels[j].2,
        (forall|j: int| 0 <= j < pixels.len() ==> !pixel_at(#[trigger] pixels[j], x, y)) ==> pixel_on(
            drawn(bytes, pixels),
            x,
            y,
        ) == pixel_on(bytes, x, y),
    decreases pixels.len(),
{
    if pixels.len() > 0 {
        let rest = pixels.drop_last();
        let p = pixels.last();
        let before = drawn(bytes, rest);
        lemma_drawn_pixel_state(bytes, rest, x, y);
        lemma_drawn_len(bytes, rest);
        if in_frame(p.0 as int, p.1 as int) {
            lemma_read_after_write(before, p.0 as int, p.1 as int, p.2, x, y);
        }
        assert forall|j: int|
            0 <= j < pixels.len() && pixel_at(#[trigger] pixels[j], x, y) && (forall|k: int|
                j < k < pixels.len() ==> !pixel_at(#[trigger] pixels[k], x, y)) implies pixel_on(
            drawn(bytes, pixels),
            x,
            y,
        ) == pixels[j].2 by {
            if j < pixels.len() - 1 {
                assert(!pixel_at(pixels[pixels.len() - 1], x, y));
                assert(rest[j] == pixels[j]);
                assert forall|k: int| j < k < rest.len() implies !pixel_at(
                    #[trigger] rest[k],
                    x,
                    y,
                ) by {
                    assert(rest[k] == pixels[k]);
                }
            }
        }
        if forall|j: int| 0 <= j < pixels.len() ==> !pixel_at(#[trigger] pixels[j], x, y) {
            assert(!pixel_at(pixels[pixels.len() - 1], x, y));
            assert forall|j: int| 0 <= j < rest.len() implies !pixel_at(#[trigger] rest[j], x, y) by {
                assert(rest[j] == pixels[j]);
            }
        }
    }
}

/// A pixel outside the display changes nothing: drawing a list with it gives
/// the same buffer as drawing the list without it.
pub proof fn lemma_drawn_skips_outside(
    bytes: Seq<u8>,
    a: Seq<(i32, i32, bool)>,
    p: (i32, i32, bool),
    b: Seq<(i32, i32, bool)>,
)
    requires
        !in_frame(p.0 as int, p.1 as int),
    ensures
        drawn(bytes, a + seq![p] + b) == drawn(bytes, a + b),
    decreases b.len(),
{
    if b.len() == 0 {
        assert(a + seq![p] + b =~= a.push(p));
        assert(a + b =~= a);
        assert(a.push(p).drop_last() =~= a);
    } else {
        lemma_drawn_skips_outside(bytes, a, p, b.drop_last());
        assert((a + seq![p] + b).drop_last() =~= a + seq![p] + b.drop_last());
        assert((a + b).drop_last() =~= a + b.drop_last());
    }
}

/// Drawing one pixel of the display sets that pixel to its colour and changes nothing else.
pub proof fn lemma_drawn_single(bytes: Seq<u8>, x: i32, y: i32, is_on: bool)
    requires
        in_frame(x as int, y as int),
    ensures
        drawn(bytes, seq![(x, y, is_on)]) == with_pixel(bytes, x as int, y as int, is_on),
{
    let one = seq![(x, y, is_on)];
    assert(one.drop_last() =~= Seq::<(i32, i32, bool)>::empty());
    assert(drawn(bytes, one.drop_last()) == bytes);
    assert(one.last() == (x, y, is_on));
}

/// An initialized buffer has its layout in place and every pixel in the requested state.
pub proof fn lemma_initialized(is_pixel_on: bool, x: int, y: int)
    requires
        in_frame(x, y),
    ensures
        is_frame_layout(initialized_bytes(is_pixel_on)),
        pixel_on(initialized_bytes(is_pixel_on), x, y) == is_pixel_on,
{
    lemma_pixel_position(x, y);
    let k = (x % 8) as u8;
    assert(0x00u8 & msb_mask(k) == 0 && (k < 8 ==> 0xFFu8 & msb_mask(k) != 0)) by (bit_vector);
}

/// Two buffers with the layout in place and the same state at every pixel are equal:
/// the pixels are all that a frame holds besides its fixed bytes.
pub proof fn lemma_frame_determined_by_pixels(a: Seq<u8>, b: Seq<u8>)
    requires
        is_frame_layout(a),
        is_frame_layout(b),
        forall|x: int, y: int| in_frame(x, y) ==> pixel_on(a, x, y) == pixel_on(b, x, y),
    ensures
        a == b,
{
    assert forall|i: int| 0 <= i < BUF_SIZE implies a[i] == b[i] by {
        if layout_byte(i) is None {
            let y = i / (LINE_TOTAL_BYTE_COUNT as int);
            let c = i % (LINE_TOTAL_BYTE_COUNT as int) - LINE_ADDRESS_BYTE_COUNT;
            lemma_index_in_line(i);
            assert forall|k: u8| k < 8 implies ((a[i] & #[trigger] msb_mask(k) == 0) == (b[i]
                & msb_mask(k) == 0)) by {
                let x = c * 8 + k;
                lemma_byte_offset(c, k as int);
                assert(in_frame(x, y));
                assert(pixel_index(x, y) == i);
                assert(pixel_on(a, x, y) == pixel_on(b, x, y));
            }
            lemma_byte_from_bits(a[i], b[i]);
        }
    }
    assert(a =~= b);
}

// ---------------------------------------------------------------------------
// Pixel access
// ---------------------------------------------------------------------------
/// Pixel address in the underlying `u8` buffer of the [`DisplayFrame`]
///
/// (index, bit_mask)
pub struct PAddr(pub usize, pub u8);

impl<'a> DisplayFrame<'a, BUF_SIZE> {
    /// Initialize the display frame bytes
    pub fn with_init(self, is_pixel_on: bool) -> (frame: Self)
        ensures
            frame@ == initialized_bytes(is_pixel_on),
            forall|x: int, y: int| #[trigger] in_frame(x, y) ==> pixel_on(frame@, x, y) == is_pixel_on,
            *final(frame.buffer) == *final(self.buffer),
    {
        let mut frame = self;
        frame.init(is_pixel_on);
        proof {
            assert forall|x: int, y: int| #[trigger] in_frame(x, y) implies pixel_on(
                initialized_bytes(is_pixel_on),
                x,
                y,
            ) == is_pixel_on by {
                lemma_initialized(is_pixel_on, x, y);
            }
        }
        frame
    }

    /// Initialize the internal buffer:
    /// - Write the on-wire address for each line, so that we only calculate them once
    /// - Set all pixels to given state
    /// - Write the filler byte a the end of each line, so that we don't have to do it ever again
    pub fn init(&mut self, is_pixel_on: bool)
        ensures
            final(self)@ == initialized_bytes(is_pixel_on),
            *final(final(self).buffer) == *final(old(self).buffer),
        no_unwind
    {
        let color: u8 = if is_pixel_on {
            0x00
        } else {
            0xFF
        };
        let ghost target = initialized_bytes(is_pixel_on);
        let mut addr: usize = 0;
        while addr < HEIGHT
            invariant
                addr <= HEIGHT,
                target == initialized_bytes(is_pixel_on),
                color == (if is_pixel_on {
                    0x00u8
                } else {
                    0xFFu8
                }),
                self@.len() == BUF_SIZE,
                *final(self.buffer) == *final(old(self).buffer),
                forall|i: int| 0 <= i < addr * LINE_TOTAL_BYTE_COUNT ==> self@[i] == target[i],
            decreases HEIGHT - addr,
        {
            proof {
                lemma_line_bounds(addr as int);
                lemma_line_offset(addr as int, 0);
            }
            let start: usize = addr * LINE_TOTAL_BYTE_COUNT;
            // LCD address space starts at 1 for y
            self.buffer[start] = reverse_bits((addr + 1) as u8);
            let mut k: usize = LINE_ADDRESS_BYTE_COUNT;
            while k < LINE_TOTAL_BYTE_COUNT - LINE_PADDING_BYTE_COUNT
                invariant
                    LINE_ADDRESS_BYTE_COUNT <= k <= LINE_TOTAL_BYTE_COUNT - LINE_PADDING_BYTE_COUNT,
                    addr < HEIGHT,
                    start == addr * LINE_TOTAL_BYTE_COUNT,
                    start + LINE_TOTAL_BYTE_COUNT <= BUF_SIZE,
                    target == initialized_bytes(is_pixel_on),
                    color == (if is_pixel_on {
                        0x00u8
                    } else {
                        0xFFu8
                    }),
                    self@.len() == BUF_SIZE,
                    *final(self.buffer) == *final(old(self).buffer),
                    forall|i: int| 0 <= i < start + k ==> self@[i] == target[i],
                decreases LINE_TOTAL_BYTE_COUNT - k,
            {
                proof {
                    lemma_line_offset(addr as int, k as int);
                }
                self.buffer[start + k] = color;
                k = k + 1;
            }
            proof {
                lemma_line_offset(addr as int, LINE_TOTAL_BYTE_COUNT - 1);
            }
            self.buffer[start + LINE_TOTAL_BYTE_COUNT - 1] = FILLER_BYTE;
            addr = addr + 1;
        }
        assert(self@ =~= target);
    }

    /// Get the buffer index corresponding to a pixel coord, and its bitmask which shows which bit in the byte
    /// represents the pixel.
    pub fn get_pixel_addr_unchecked(&self, x: u8, y: u8) -> (addr: PAddr)
        requires
            x < WIDTH,
            y < HEIGHT,
        ensures
            addr.0 == pixel_index(x as int, y as int),
            addr.1 == pixel_mask(x as int),
            addr.0 < BUF_SIZE,
        no_unwind
    {
        proof {
            lemma_pixel_position(x as int, y as int);
        }
        let col_byte: u8 = x / 8;
        let col_bit: u8 = x % 8;
        let index: usize = (y as usize * LINE_TOTAL_BYTE_COUNT) + (LINE_ADDRESS_BYTE_COUNT
            + col_byte as usize);
        // Pixel bits must be transmitted over SPI in reverse order,
        // so that's also their order in each byte of the buffer
        PAddr(index, 0x80u8 >> col_bit)
    }

    /// Set the state of a pixel at the given coordinates
    pub fn write_unchecked(&mut self, x: u8, y: u8, is_pixel_on: bool)
        requires
            x < WIDTH,
            y < HEIGHT,
        ensures
            final(self)@ == with_pixel(old(self)@, x as int, y as int, is_pixel_on),
            *final(final(self).buffer) == *final(old(self).buffer),
        no_unwind
    {
        let PAddr(index, bit_mask) = self.get_pixel_addr_unchecked(x, y);
        proof {
            lemma_mask_ops(self@[index as int], x % 8, x % 8);
        }
        if ((self.buffer[index] & bit_mask) == 0) ^ is_pixel_on {
            // flip the pixel state
            self.buffer[index] = self.buffer[index] ^ bit_mask;
        }
        assert(self@ =~= with_pixel(old(self)@, x as int, y as int, is_pixel_on));
    }

    /// Read the state of a pixel at the given coordinates
    pub fn read_unchecked(&self, x: u8, y: u8) -> (is_pixel_on: bool)
        requires
            x < WIDTH,
            y < HEIGHT,
        ensures
            is_pixel_on == pixel_on(self@, x as int, y as int),
    {
        let PAddr(index, bit_mask) = self.get_pixel_addr_unchecked(x, y);
        (self.buffer[index] & bit_mask) == 0
    }

    /// Invert the state of a pixel at the given coordinates, and return current state
    pub fn flip_unchecked(&mut self, x: u8, y: u8) -> (is_pixel_on: bool)
        requires
            x < WIDTH,
            y < HEIGHT,
        ensures
            final(self)@ == with_pixel_flipped(old(self)@, x as int, y as int),
            *final(final(self).buffer) == *final(old(self).buffer),
            is_pixel_on == pixel_on(final(self)@, x as int, y as int),
            is_pixel_on == !pixel_on(old(self)@, x as int, y as int),
        no_unwind
    {
        let PAddr(index, bit_mask) = self.get_pixel_addr_unchecked(x, y);
        proof {
            lemma_mask_ops(self@[index as int], x % 8, x % 8);
        }
        self.buffer[index] = self.buffer[index] ^ bit_mask;
        (self.buffer[index] & bit_mask) == 0
    }

    /// The rectangle that the display covers: top left corner `(0, 0)`, size `WIDTH` x `HEIGHT`.
    pub fn bounding_box(&self) -> (rect: ((i32, i32), (u32, u32)))
        ensures
            rect == ((0i32, 0i32), (WIDTH as u32, HEIGHT as u32)),
    {
        ((0, 0), (WIDTH as u32, HEIGHT as u32))
    }

    /// Draws the pixels `(x, y, is_on)` in order. Pixels outside the display are
    /// discarded without an error or a panic.
    pub fn draw_iter(&mut self, pixels: &[(i32, i32, bool)])
        ensures
            final(self)@ == drawn(old(self)@, pixels@),
            forall|x: int, y: int, j: int|
                in_frame(x, y) && 0 <= j < pixels@.len() && #[trigger] pixel_at(pixels@[j], x, y) && (
                forall|k: int| j < k < pixels@.len() ==> !pixel_at(#[trigger] pixels@[k], x, y))
                    ==> pixel_on(final(self)@, x, y) == pixels@[j].2,
            forall|x: int, y: int|
                in_frame(x, y) && (forall|j: int|
                    0 <= j < pixels@.len() ==> !pixel_at(#[trigger] pixels@[j], x, y)) ==> #[trigger] pixel_on(
                    final(self)@,
                    x,
                    y,
                ) == pixel_on(old(self)@, x, y),
            is_frame_layout(old(self)@) ==> is_frame_layout(final(self)@),
            *final(final(self).buffer) == *final(old(self).buffer),
    {
        let mut n: usize = 0;
        while n < pixels.len()
            invariant
                n <= pixels@.len(),
                self@.len() == BUF_SIZE,
                self@ == drawn(old(self)@, pixels@.take(n as int)),
                *final(self.buffer) == *final(old(self).buffer),
            decreases pixels@.len() - n,
        {
            let (x, y, is_on) = pixels[n];
            // Check if the pixel coordinates are out of bounds (negative or greater than
            // (WIDTH,HEIGHT)).
            if x >= 0 && x < WIDTH as i32 && y >= 0 && y < HEIGHT as i32 {
                self.write_unchecked(x as u8, y as u8, is_on);
            }
            assert(pixels@.take(n + 1).drop_last() =~= pixels@.take(n as int));
            n = n + 1;
        }
        assert(pixels@.take(pixels@.len() as int) =~= pixels@);
        proof {
            assert forall|x: int, y: int| in_frame(x, y) implies {
                &&& forall|j: int|
                    0 <= j < pixels@.len() && pixel_at(#[trigger] pixels@[j], x, y) && (forall|k: int|
                        j < k < pixels@.len() ==> !pixel_at(#[trigger] pixels@[k], x, y))
                        ==> pixel_on(self@, x, y) == pixels@[j].2
                &&& (forall|j: int| 0 <= j < pixels@.len() ==> !pixel_at(#[trigger] pixels@[j], x, y))
                    ==> pixel_on(self@, x, y) == pixel_on(old(self)@, x, y)
            } by {
                lemma_drawn_pixel_state(old(self)@, pixels@, x, y);
            }
            if is_frame_layout(old(self)@) {
                lemma_drawing_keeps_layout(old(self)@, pixels@);
            }
        }
    }

    /// Sets every pixel to `is_pixel_on`, writing the line addresses and filler bytes anew.
    pub fn clear(&mut self, is_pixel_on: bool)
        ensures
            final(self)@ == initialized_bytes(is_pixel_on),
            *final(final(self).buffer) == *final(old(self).buffer),
    {
        self.init(is_pixel_on);
    }
}

// ---------------------------------------------------------------------------
// SPI transfers
// ---------------------------------------------------------------------------
/// One step of talking to the LCD.
#[derive(Debug, PartialEq, Eq, Structural)]
pub enum LcdAction {
    /// Drive chip select high: the LCD listens.
    SelectChip,
    /// Transfer one byte over SPI.
    SendByte(u8),
    /// Transfer the bytes of the frame over SPI.
    SendFrame,
    /// Drive chip select low: the LCD takes what it was sent.
    DeselectChip,
}

/// The bytes that `actions` put on the wire, `frame` being the bytes of the frame.
pub open spec fn sent_bytes(actions: Seq<LcdAction>, frame: Seq<u8>) -> Seq<u8>
    decreases actions.len(),
{
    if actions.len() == 0 {
        Seq::empty()
    } else {
        sent_bytes(actions.drop_last(), frame) + match actions.last() {
            LcdAction::SendByte(b) => seq![b],
            LcdAction::SendFrame => frame,
            _ => Seq::empty(),
        }
    }
}

/// The steps that clear the display, once at start up.
pub fn clear_display_actions() -> (actions: [LcdAction; 3])
    ensures
        actions@ == seq![
            LcdAction::SelectChip,
            LcdAction::SendByte(LcdMode::Clear.spec_byte()),
            LcdAction::DeselectChip,
        ],
{
    [LcdAction::SelectChip, LcdAction::SendByte(LcdMode::Clear.as_byte()), LcdAction::DeselectChip]
}

/// The steps that send one frame to the display: the update mode byte, the
/// frame (line addresses, pixels and line fillers), and one more filler byte,
/// all while the chip is selected.
pub fn frame_update_actions() -> (actions: [LcdAction; 5])
    ensures
        actions@ == seq![
            LcdAction::SelectChip,
            LcdAction::SendByte(LcdMode::Update.spec_byte()),
            LcdAction::SendFrame,
            LcdAction::SendByte(FILLER_BYTE),
            LcdAction::DeselectChip,
        ],
{
    [
        LcdAction::SelectChip,
        LcdAction::SendByte(LcdMode::Update.as_byte()),
        LcdAction::SendFrame,
        LcdAction::SendByte(FILLER_BYTE),
        LcdAction::DeselectChip,
    ]
}

/// What the LCD receives for one frame: the update mode byte, the frame, and a filler byte.
pub proof fn lemma_frame_update_wire_bytes(frame: Seq<u8>)
    ensures
        sent_bytes(
            seq![
                LcdAction::SelectChip,
                LcdAction::SendByte(LcdMode::Update.spec_byte()),
                LcdAction::SendFrame,
                LcdAction::SendByte(FILLER_BYTE),
                LcdAction::DeselectChip,
            ],
            frame,
        ) == seq![0x80u8] + frame + seq![0xFFu8],
{
    let a = seq![
        LcdAction::SelectChip,
        LcdAction::SendByte(LcdMode::Update.spec_byte()),
        LcdAction::SendFrame,
        LcdAction::SendByte(FILLER_BYTE),
        LcdAction::DeselectChip,
    ];
    reveal_with_fuel(sent_bytes, 6);
    assert(a.drop_last() =~= a.take(4));
    assert(a.take(4).drop_last() =~= a.take(3));
    assert(a.take(3).drop_last() =~= a.take(2));
    assert(a.take(2).drop_last() =~= a.take(1));
    assert(a.take(1).drop_last() =~= Seq::<LcdAction>::empty());
    assert(sent_bytes(a, frame) =~= seq![0x80u8] + frame + seq![0xFFu8]);
}

/// What the LCD receives to clear the display: the clear mode byte alone.
pub proof fn lemma_clear_display_wire_bytes(frame: Seq<u8>)
    ensures
        sent_bytes(
            seq![
                LcdAction::SelectChip,
                LcdAction::SendByte(LcdMode::Clear.spec_byte()),
                LcdAction::DeselectChip,
            ],
            frame,
        ) == seq![0x20u8],
{
    let a = seq![
        LcdAction::SelectChip,
        LcdAction::SendByte(LcdMode::Clear.spec_byte()),
        LcdAction::DeselectChip,
    ];
    reveal_with_fuel(sent_bytes, 4);
    assert(a.drop_last() =~= a.take(2));
    assert(a.take(2).drop_last() =~= a.take(1));
    assert(a.take(1).drop_last() =~= Seq::<LcdAction>::empty());
    assert(sent_bytes(a, frame) =~= seq![0x20u8]);
}

} // verus!
