//! Display frames and the decisions of the drawing task.

pub mod ls013b7dh03;

use crate::display::ls013b7dh03::HEIGHT;
use vstd::prelude::*;

verus! {

/// Generic display frame, parametrized over the size of the underlying `u8` buffer (`N`).
pub struct DisplayFrame<'a, const N: usize> {
    pub buffer: &'a mut [u8; N],
}

impl<'a, const N: usize> View for DisplayFrame<'a, N> {
    type V = Seq<u8>;

    /// The bytes of the buffer, in order.
    open spec fn view(&self) -> Seq<u8> {
        self.buffer@
    }
}

impl<'a, const N: usize> DisplayFrame<'a, N> {
    /// Wraps `buffer` as it is: no byte is written.
    pub fn new(buffer: &'a mut [u8; N]) -> (frame: Self)
        ensures
            frame@ == old(buffer)@,
            *final(frame.buffer) == *final(buffer),
    {
        Self { buffer }
    }

    /// Get the raw bytes of the display frame.
    ///
    /// These include the line address bytes that the LCD expects
    pub fn as_bytes(&self) -> (bytes: &[u8])
        ensures
            bytes@ == self@,
    {
        self.buffer.as_slice()
    }
}

/// Vertical position of the moving triangle in the first frame.
pub const START_Y_OFFSET: i32 = 20;

/// The vertical position that follows `y`: one higher, or `HEIGHT` once `y` is at `-16` or above it.
pub open spec fn next_offset(y: int) -> int {
    if y <= -16 {
        HEIGHT as int
    } else {
        y - 1
    }
}

/// The vertical position `n` frames after `y`.
pub open spec fn offset_after(y: int, n: nat) -> int
    decreases n,
{
    if n == 0 {
        y
    } else {
        next_offset(offset_after(y, (n - 1) as nat))
    }
}

proof fn lemma_offset_after_closed_form(y: int, n: nat)
    requires
        -16 <= y <= HEIGHT,
    ensures
        offset_after(y, n) == HEIGHT - ((HEIGHT - y + n) % 145),
    decreases n,
{
    if n > 0 {
        lemma_offset_after_closed_form(y, (n - 1) as nat);
        let a = HEIGHT - y + n - 1;
        assert((a + 1) % 145 == if a % 145 == 144 { 0 } else { a % 145 + 1 }) by (nonlinear_arith)
            requires
                a >= 0,
        ;
    } else {
        assert((HEIGHT - y) % 145 == HEIGHT - y) by (nonlinear_arith)
            requires
                0 <= HEIGHT - y < 145,
        ;
    }
}

/// The moving triangle comes back to where it was every 145 frames, from any
/// position between `-16` and `HEIGHT`.
pub proof fn lemma_y_offset_period(y: int)
    requires
        -16 <= y <= HEIGHT,
    ensures
        offset_after(y, 145) == y,
        forall|n: nat| -16 <= #[trigger] offset_after(y, n) <= HEIGHT,
{
    lemma_offset_after_closed_form(y, 145);
    assert((HEIGHT - y + 145) % 145 == HEIGHT - y) by (nonlinear_arith)
        requires
            0 <= HEIGHT - y < 145,
    ;
    assert forall|n: nat| -16 <= #[trigger] offset_after(y, n) <= HEIGHT by {
        lemma_offset_after_closed_form(y, n);
    }
}

/// Vertical position of the moving triangle in the next frame: one pixel
/// higher, and back below the bottom edge once it has left the top.
pub fn next_y_offset(y_offset: i32) -> (next: i32)
    ensures
        next == next_offset(y_offset as int),
        -16 <= y_offset <= HEIGHT ==> -16 <= next <= HEIGHT,
{
    if y_offset <= -16 {
        HEIGHT as i32
    } else {
        y_offset - 1
    }
}

/// Corners of the 16-pixel triangle drawn at vertical position `y_offset`:
/// its base from `(100, 16 + y_offset)` to `(116, 16 + y_offset)`, its apex at `(108, y_offset)`.
pub fn triangle_vertices(y_offset: i32) -> (corners: [(i32, i32); 3])
    requires
        y_offset <= i32::MAX - 16,
    ensures
        corners@ == seq![
            (100i32, (16 + y_offset) as i32),
            ((100 + 16) as i32, (16 + y_offset) as i32),
            ((100 + 8) as i32, y_offset),
        ],
{
    [(100, 16 + y_offset), (100 + 16, 16 + y_offset), (100 + 8, y_offset)]
}

} // verus!
