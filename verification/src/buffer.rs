//! Byte-RGB pixel grids: the whole canvas and the rectangular tiles that
//! workers render independently before composition.

use vstd::prelude::*;

verus! {

#[derive(Clone, Copy, PartialEq, Eq, Structural, Debug)]
pub struct Pixel {
    pub r: u8,
    pub g: u8,
    pub b: u8,
}

impl Default for Pixel {
    /// The default pixel is black.
    fn default() -> (r: Pixel)
        ensures
            r == (Pixel { r: 0u8, g: 0u8, b: 0u8 }),
    {
        Pixel { r: 0, g: 0, b: 0 }
    }
}

/// A rectangular pixel buffer with its absolute position in the frame:
/// `width` and `height` are its dimensions, `p_row` and `p_col` the offset
/// of its top-left corner in the canvas, and `pixels` the row-major grid
/// that rendering fills.
pub struct SliceBuffer {
    pub width: usize,
    pub height: usize,
    pub p_row: usize,
    pub p_col: usize,
    pub pixels: Vec<Vec<Pixel>>,
}

/// A filled buffer: exactly `height` rows of exactly `width` pixels.
pub open spec fn slice_filled(s: SliceBuffer) -> bool {
    s.pixels@.len() == s.height && forall|i: int|
        0 <= i < s.pixels@.len() ==> (#[trigger] s.pixels@[i])@.len() == s.width
}

pub type Canvas = SliceBuffer;

impl SliceBuffer {
    /// An empty slice at the given offset; rendering fills its pixels.
    pub fn new_slice(width: usize, height: usize, p_row: usize, p_col: usize) -> (r: SliceBuffer)
        ensures
            r.width == width,
            r.height == height,
            r.p_row == p_row,
            r.p_col == p_col,
            r.pixels@.len() == 0,
    {
        SliceBuffer { width, height, p_row, p_col, pixels: Vec::new() }
    }

    /// A zero-filled canvas at the origin.
    pub fn new(width: usize, height: usize) -> (r: SliceBuffer)
        requires
            width <= 0x10000,
            height <= 0x10000,
        ensures
            r.width == width,
            r.height == height,
            r.p_row == 0,
            r.p_col == 0,
            slice_filled(r),
            forall|i: int, j: int|
                0 <= i < height && 0 <= j < width ==> #[trigger] r.pixels@[i]@[j] == (Pixel {
                    r: 0u8,
                    g: 0u8,
                    b: 0u8,
                }),
    {
        let mut pixels_array: Vec<Vec<Pixel>> = Vec::new();
        let mut i: usize = 0;
        while i < height
            invariant
                i <= height,
                width <= 0x10000,
                pixels_array@.len() == i,
                forall|a: int|
                    0 <= a < i ==> (#[trigger] pixels_array@[a])@.len() == width,
                forall|a: int, b: int|
                    0 <= a < i && 0 <= b < width ==> #[trigger] pixels_array@[a]@[b] == (Pixel {
                        r: 0u8,
                        g: 0u8,
                        b: 0u8,
                    }),
            decreases height - i,
        {
            let mut row: Vec<Pixel> = Vec::new();
            let mut j: usize = 0;
            while j < width
                invariant
                    j <= width,
                    row@.len() == j,
                    forall|b: int|
                        0 <= b < j ==> #[trigger] row@[b] == (Pixel { r: 0u8, g: 0u8, b: 0u8 }),
                decreases width - j,
            {
                row.push(Pixel { r: 0, g: 0, b: 0 });
                j = j + 1;
            }
            pixels_array.push(row);
            i = i + 1;
        }
        SliceBuffer { width, height, p_row: 0, p_col: 0, pixels: pixels_array }
    }

    /// Copy a filled slice into this canvas at the slice's offset. Returns
    /// false, changing nothing, when the slice does not fit; on success the
    /// window at the offset holds the slice's pixels and everything outside
    /// it is untouched.
    pub fn write_slice(&mut self, slice: &SliceBuffer) -> (ok: bool)
        requires
            slice_filled(*old(self)),
            slice_filled(*slice),
        ensures
            final(self).width == old(self).width,
            final(self).height == old(self).height,
            final(self).p_row == old(self).p_row,
            final(self).p_col == old(self).p_col,
            slice_filled(*final(self)),
            ok == (slice.height <= old(self).height && slice.width <= old(self).width
                && slice.p_row + slice.height <= old(self).height && slice.p_col + slice.width
                <= old(self).width),
            !ok ==> *final(self) == *old(self),
            ok ==> forall|i: int, j: int|
                0 <= i < old(self).height && 0 <= j < old(self).width
                    ==> #[trigger] final(self).pixels@[i]@[j] == if slice.p_row <= i < slice.p_row
                    + slice.height && slice.p_col <= j < slice.p_col + slice.width {
                    slice.pixels@[i - slice.p_row]@[j - slice.p_col]
                } else {
                    old(self).pixels@[i]@[j]
                },
    {
        if slice.height > self.height || slice.width > self.width {
            return false;
        }
        if slice.p_row > self.height - slice.height || slice.p_col > self.width - slice.width {
            return false;
        }
        let mut i: usize = 0;
        while i < slice.height
            invariant
                i <= slice.height,
                slice_filled(*slice),
                slice_filled(*self),
                self.width == old(self).width,
                self.height == old(self).height,
                self.p_row == old(self).p_row,
                self.p_col == old(self).p_col,
                slice.height <= self.height,
                slice.width <= self.width,
                slice.p_row + slice.height <= self.height,
                slice.p_col + slice.width <= self.width,
                forall|a: int, b: int|
                    0 <= a < self.height && 0 <= b < self.width
                        ==> #[trigger] self.pixels@[a]@[b] == if slice.p_row <= a < slice.p_row
                        + i && slice.p_col <= b < slice.p_col + slice.width {
                        slice.pixels@[a - slice.p_row]@[b - slice.p_col]
                    } else {
                        old(self).pixels@[a]@[b]
                    },
            decreases slice.height - i,
        {
            let mut j: usize = 0;
            while j < slice.width
                invariant
                    i < slice.height,
                    j <= slice.width,
                    slice_filled(*slice),
                    slice_filled(*self),
                    self.width == old(self).width,
                    self.height == old(self).height,
                    self.p_row == old(self).p_row,
                    self.p_col == old(self).p_col,
                    slice.height <= self.height,
                    slice.width <= self.width,
                    slice.p_row + slice.height <= self.height,
                    slice.p_col + slice.width <= self.width,
                    forall|a: int, b: int|
                        0 <= a < self.height && 0 <= b < self.width
                            ==> #[trigger] self.pixels@[a]@[b] == if (slice.p_row <= a
                            < slice.p_row + i && slice.p_col <= b < slice.p_col + slice.width) || (
                        a == slice.p_row + i && slice.p_col <= b < slice.p_col + j) {
                            slice.pixels@[a - slice.p_row]@[b - slice.p_col]
                        } else {
                            old(self).pixels@[a]@[b]
                        },
                decreases slice.width - j,
            {
                let px = slice.pixels[i][j];
                self.pixels[slice.p_row + i][slice.p_col + j] = px;
                j = j + 1;
            }
            i = i + 1;
        }
        true
    }
}

} // verus!
