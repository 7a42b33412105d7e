//! LS013B7DH03 display driver frame that owns its layout: a frame is made
//! with its line addresses and filler bytes written, and keeps them.

pub use crate::display::ls013b7dh03::{BUF_SIZE, FILLER_BYTE};

use crate::bits::lemma_mask_ops;
use crate::display::ls013b7dh03::{
    in_frame, initialized_bytes, is_frame_layout, lemma_initialized, lemma_pixel_ops_keep_layout, pixel_index,
    pixel_mask, pixel_on, with_pixel, with_pixel_flipped, HEIGHT, WIDTH,
};
use vstd::prelude::*;

verus! {

/// LCD Mode flags
#[derive(Debug)]
pub enum LcdMode {
    Clear,
    Update,
}

impl LcdMode {
    /// The mode byte that the LCD expects for this mode.
    pub open spec fn spec_byte(self) -> u8 {
        match self {
            LcdMode::Clear => 0x20,
            LcdMode::Update => 0x80,
        }
    }

    /// The mode byte that the LCD expects for this mode.
    pub fn as_byte(&self) -> (b: u8)
        ensures
            b == self.spec_byte(),
    {
        match self {
            LcdMode::Clear => 0x20,
            LcdMode::Update => 0x80,
        }
    }
}

/// A frame of the LS013B7DH03 display over a borrowed buffer.
pub struct DisplayFrame<'a> {
    frame: crate::display::DisplayFrame<'a, BUF_SIZE>,
}

impl<'a> View for DisplayFrame<'a> {
    type V = Seq<u8>;

    /// The bytes of the buffer, in order.
    closed spec fn view(&self) -> Seq<u8> {
        self.frame@
    }
}

impl<'a> DisplayFrame<'a> {
    /// The line addresses and filler bytes are always in place.
    #[verifier::type_invariant]
    closed spec fn layout_in_place(self) -> bool {
        is_frame_layout(self.frame@)
    }

    /// The width, in pixels of the Ls013b7dh03 display
    pub const WIDTH: usize = 128;

    /// The height, in pixels of the Ls013b7dh03 display
    pub const HEIGHT: usize = 128;

    /// Wraps `buffer` and initializes it: line addresses, filler bytes, and every pixel off.
    pub fn new(buffer: &'a mut [u8; BUF_SIZE]) -> (frame: Self)
        ensures
            frame@ == initialized_bytes(false),
            forall|x: int, y: int| #[trigger] in_frame(x, y) ==> !pixel_on(frame@, x, y),
    {
        Self::reset(crate::display::DisplayFrame::new(buffer))
    }

    /// Initialize the internal buffer:
    /// - Write the on-wire address for each line, so that we only calculate them once
    /// - Set all pixels to OFF state (which corresponds to bit `1`)
    /// - Write the filler byte a the end of each line, so that we don't have to do it ever again
    fn reset(frame: crate::display::DisplayFrame<'a, BUF_SIZE>) -> (reset: Self)
        ensures
            reset@ == initialized_bytes(false),
            forall|x: int, y: int| #[trigger] in_frame(x, y) ==> !pixel_on(reset@, x, y),
            *final(reset.frame.buffer) == *final(frame.buffer),
    {
        let frame = frame.with_init(false);
        proof {
            lemma_initialized(false, 0, 0);
        }
        Self { frame }
    }

    /// The width of the display, in pixels.
    pub fn width(&self) -> (w: usize)
        ensures
            w == WIDTH,
    {
        Self::WIDTH
    }

    /// The height of the display, in pixels.
    pub fn height(&self) -> (h: usize)
        ensures
            h == HEIGHT,
    {
        Self::HEIGHT
    }

    /// The bytes of the frame, line addresses and filler bytes included.
    pub fn buffer(&self) -> (bytes: &[u8; 2304])
        ensures
            bytes@ == self@,
            is_frame_layout(bytes@),
    {
        proof {
            use_type_invariant(self);
        }
        &*self.frame.buffer
    }

    /// Get the buffer index corresponding to a pixel coord, and its bitmask which shows which bit in the byte
    /// represents the pixel.
    fn get_pixel_addr_unchecked(&self, x: u8, y: u8) -> (addr: (usize, u8))
        requires
            x < WIDTH,
            y < HEIGHT,
        ensures
            addr.0 == pixel_index(x as int, y as int),
            addr.1 == pixel_mask(x as int),
            addr.0 < BUF_SIZE,
    {
        let a = self.frame.get_pixel_addr_unchecked(x, y);
        (a.0, a.1)
    }

    /// Set the state of a pixel at the given coordinates
    pub fn write(&mut self, x: u8, y: u8, is_pixel_on: bool)
        requires
            x < WIDTH,
            y < HEIGHT,
        ensures
            final(self)@ == with_pixel(old(self)@, x as int, y as int, is_pixel_on),
    {
        let (index, bit_mask) = self.get_pixel_addr_unchecked(x, y);
        let byte = self.frame.buffer[index];
        proof {
            use_type_invariant(&*self);
            lemma_pixel_ops_keep_layout(self@, x as int, y as int, is_pixel_on);
            lemma_mask_ops(byte, x % 8, x % 8);
            assert(with_pixel(self@, x as int, y as int, is_pixel_on) =~= self@.update(
                index as int,
                if ((byte & bit_mask) == 0) != is_pixel_on {
                    byte ^ bit_mask
                } else {
                    byte
                },
            ));
        }
        if ((byte & bit_mask) == 0) ^ is_pixel_on {
            // flip the pixel state
            self.frame.buffer[index] = byte ^ bit_mask;
        }
        assert(self@ =~= with_pixel(old(self)@, x as int, y as int, is_pixel_on));
    }

    /// Read the state of a pixel at the given coordinates
    pub fn read(&self, x: u8, y: u8) -> (is_pixel_on: bool)
        requires
            x < WIDTH,
            y < HEIGHT,
        ensures
            is_pixel_on == pixel_on(self@, x as int, y as int),
    {
        let (index, bit_mask) = self.get_pixel_addr_unchecked(x, y);
        (self.frame.buffer[index] & bit_mask) == 0
    }

    /// Invert the state of a pixel at the given coordinates, and return current state
    pub fn flip(&mut self, x: u8, y: u8) -> (is_pixel_on: bool)
        requires
            x < WIDTH,
            y < HEIGHT,
        ensures
            final(self)@ == with_pixel_flipped(old(self)@, x as int, y as int),
            is_pixel_on == pixel_on(final(self)@, x as int, y as int),
            is_pixel_on == !pixel_on(old(self)@, x as int, y as int),
    {
        let (index, bit_mask) = self.get_pixel_addr_unchecked(x, y);
        let byte = self.frame.buffer[index];
        proof {
            use_type_invariant(&*self);
            lemma_pixel_ops_keep_layout(self@, x as int, y as int, true);
            lemma_mask_ops(byte, x % 8, x % 8);
        }
        self.frame.buffer[index] = byte ^ bit_mask;
        (self.frame.buffer[index] & bit_mask) == 0
    }
}

} // verus!
