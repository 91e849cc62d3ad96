//! The tiling of a frame: its pixels, numbered row by row from the top, are
//! handed out in a fixed number of contiguous chunks, and each chunk cycles
//! through its own block of sample points.

use crate::random::random_index;
use vstd::prelude::*;

verus! {

/// The number of chunks that a frame is cut into.
pub const CHUNKS: usize = 64;

/// A run of consecutive pixel indices.
#[derive(Clone, Copy, Debug, PartialEq, Eq, Structural)]
pub struct Chunk {
    pub start: usize,
    pub len: usize,
}

/// The size of a frame and the number of rays traced through each of its pixels.
#[derive(Clone, Copy, Debug, PartialEq, Eq, Structural)]
pub struct Tiling {
    pub width: usize,
    pub height: usize,
    pub sample_rate: u32,
}

/// The number of pixels of a frame.
pub open spec fn pixels_of(width: usize, height: usize) -> int {
    width * height
}

/// The length of every chunk but the last.
pub open spec fn chunk_size_of(width: usize, height: usize) -> int {
    pixels_of(width, height) / (CHUNKS as int)
}

/// The chunk with the given index: all chunks have the same length but the
/// last, which runs to the end of the frame.
pub open spec fn chunk_of(width: usize, height: usize, index: int) -> (int, int) {
    let size = chunk_size_of(width, height);
    if index < CHUNKS - 1 {
        (index * size, size)
    } else {
        ((CHUNKS - 1) * size, pixels_of(width, height) - (CHUNKS - 1) * size)
    }
}

/// A frame can be tiled if its pixels can be counted, at least one ray goes
/// through each pixel, and the sample points of its longest chunk can be counted.
pub open spec fn can_tile(width: usize, height: usize, sample_rate: u32) -> bool {
    &&& pixels_of(width, height) <= usize::MAX
    &&& sample_rate >= 1
    &&& chunk_of(width, height, CHUNKS - 1).1 * sample_rate <= usize::MAX
}

/// Whether the chunk with the given index holds `pixel`.
pub open spec fn chunk_holds(width: usize, height: usize, index: int, pixel: int) -> bool {
    let (start, len) = chunk_of(width, height, index);
    start <= pixel < start + len
}

/// The column of a pixel, counted from the left.
pub open spec fn column_of(width: usize, pixel: usize) -> int {
    (pixel % width) as int
}

/// The row of a pixel, counted from the bottom: the first pixels are the top row.
pub open spec fn row_of(width: usize, height: usize, pixel: usize) -> int {
    height - 1 - pixel / width
}

/// The slot that comes `step` slots after `offset` in a block of `count` slots
/// that is walked round and round.
pub open spec fn slot_after(offset: usize, step: usize, count: usize) -> int {
    (offset + step) % (count as int)
}

/// The bounds of the chunks lie inside the frame.
pub proof fn lemma_chunk_bounds(width: usize, height: usize, index: int)
    requires
        0 <= index < CHUNKS,
    ensures
        0 <= chunk_of(width, height, index).0,
        0 <= chunk_of(width, height, index).1,
        chunk_of(width, height, index).0 + chunk_of(width, height, index).1 <= pixels_of(
            width,
            height,
        ),
        chunk_of(width, height, CHUNKS - 1).1 >= chunk_size_of(width, height),
        chunk_of(width, height, index).1 <= chunk_of(width, height, CHUNKS - 1).1,
{
    let pixels = pixels_of(width, height);
    let size = chunk_size_of(width, height);
    assert(pixels >= 0) by (nonlinear_arith)
        requires
            pixels == width * height,
    ;
    assert(0 <= size && 64 * size <= pixels) by (nonlinear_arith)
        requires
            pixels >= 0,
            size == pixels / 64,
    ;
    assert(0 <= index * size && index * size + size <= 64 * size) by (nonlinear_arith)
        requires
            0 <= index < 64,
            0 <= size,
    ;
}

/// The chunks follow one another without a gap from the first pixel to the last.
pub proof fn lemma_chunks_contiguous(width: usize, height: usize, index: int)
    requires
        0 <= index < CHUNKS,
    ensures
        chunk_of(width, height, 0).0 == 0,
        index < CHUNKS - 1 ==> chunk_of(width, height, index).0 + chunk_of(width, height, index).1
            == chunk_of(width, height, index + 1).0,
        index == CHUNKS - 1 ==> chunk_of(width, height, index).0 + chunk_of(
            width,
            height,
            index,
        ).1 == pixels_of(width, height),
{
    let size = chunk_size_of(width, height);
    assert(index * size + size == (index + 1) * size) by (nonlinear_arith);
}

/// Every pixel of the frame lies in a chunk.
pub proof fn lemma_chunks_cover(width: usize, height: usize, pixel: int) -> (index: int)
    requires
        0 <= pixel < pixels_of(width, height),
    ensures
        0 <= index < CHUNKS,
        chunk_holds(width, height, index, pixel),
{
    let size = chunk_size_of(width, height);
    lemma_chunk_bounds(width, height, 0);
    if pixel >= (CHUNKS - 1) * size {
        CHUNKS - 1
    } else {
        assert(size > 0) by (nonlinear_arith)
            requires
                0 <= pixel < 63 * size,
        ;
        let index = pixel / size;
        assert(0 <= index < 63 && index * size <= pixel < index * size + size) by (nonlinear_arith)
            requires
                index == pixel / size,
                size > 0,
                0 <= pixel < 63 * size,
        ;
        index
    }
}

/// No pixel lies in two chunks.
pub proof fn lemma_chunks_disjoint(width: usize, height: usize, first: int, second: int, pixel: int)
    requires
        0 <= first < CHUNKS,
        0 <= second < CHUNKS,
        chunk_holds(width, height, first, pixel),
        chunk_holds(width, height, second, pixel),
    ensures
        first == second,
{
    let size = chunk_size_of(width, height);
    lemma_chunk_bounds(width, height, first);
    if first < second {
        assert(first * size + size <= second * size) by (nonlinear_arith)
            requires
                first < second,
                size >= 0,
        ;
    } else if second < first {
        assert(second * size + size <= first * size) by (nonlinear_arith)
            requires
                second < first,
                size >= 0,
        ;
    }
}

/// A pixel is found again from its column and row, so no two pixels share a
/// position, and every position lies inside the frame.
pub proof fn lemma_position_of_pixel(width: usize, height: usize, pixel: usize)
    requires
        pixel < pixels_of(width, height),
    ensures
        0 <= column_of(width, pixel) < width,
        0 <= row_of(width, height, pixel) < height,
        pixel == (height - 1 - row_of(width, height, pixel)) * width + column_of(width, pixel),
{
    assert(width > 0 && 0 <= pixel / width < height && pixel == (pixel / width) * width + pixel
        % width) by (nonlinear_arith)
        requires
            0 <= pixel < width * height,
    ;
}

/// Fewer steps than the block has slots reach different slots: the rays through
/// one pixel get different sample points.
pub proof fn lemma_slots_distinct(offset: usize, first: usize, second: usize, count: usize)
    requires
        offset < count,
        first < second < count,
    ensures
        slot_after(offset, first, count) != slot_after(offset, second, count),
{
    let a = offset + first;
    let b = offset + second;
    assert(a % (count as int) != b % (count as int)) by (nonlinear_arith)
        requires
            0 <= a < b,
            b - a < count,
            count > 0,
    {
        assert(a == count * (a / (count as int)) + a % (count as int));
        assert(b == count * (b / (count as int)) + b % (count as int));
        if a % (count as int) == b % (count as int) {
            assert(b - a == count * (b / (count as int) - a / (count as int)));
            assert(b / (count as int) - a / (count as int) >= 1);
        }
    }
}

impl Tiling {
    /// The frame can be tiled.
    pub open spec fn valid(&self) -> bool {
        can_tile(self.width, self.height, self.sample_rate)
    }

    /// The tiling of a frame of `width` by `height` pixels with `sample_rate`
    /// rays through each pixel, if such a frame can be tiled.
    pub fn new(width: usize, height: usize, sample_rate: u32) -> (tiling: Option<Tiling>)
        ensures
            tiling is Some <==> can_tile(width, height, sample_rate),
            tiling is Some ==> tiling.unwrap() == (Tiling { width, height, sample_rate }),
    {
        if sample_rate == 0 {
            return None;
        }
        let pixels = match width.checked_mul(height) {
            Some(pixels) => pixels,
            None => {
                return None;
            },
        };
        let size = pixels / CHUNKS;
        proof {
            lemma_chunk_bounds(width, height, CHUNKS - 1);
        }
        let longest = pixels - (CHUNKS - 1) * size;
        match longest.checked_mul(sample_rate as usize) {
            Some(_) => Some(Tiling { width, height, sample_rate }),
            None => None,
        }
    }

    /// The number of pixels of the frame.
    pub fn pixel_count(&self) -> (pixels: usize)
        requires
            self.valid(),
        ensures
            pixels == pixels_of(self.width, self.height),
    {
        self.width * self.height
    }

    /// The length of every chunk but the last.
    pub fn chunk_size(&self) -> (size: usize)
        requires
            self.valid(),
        ensures
            size == chunk_size_of(self.width, self.height),
    {
        self.pixel_count() / CHUNKS
    }

    /// The chunk with the given index.
    pub fn chunk(&self, index: usize) -> (chunk: Chunk)
        requires
            self.valid(),
            index < CHUNKS,
        ensures
            chunk.start == chunk_of(self.width, self.height, index as int).0,
            chunk.len == chunk_of(self.width, self.height, index as int).1,
    {
        let pixels = self.pixel_count();
        let size = pixels / CHUNKS;
        proof {
            lemma_chunk_bounds(self.width, self.height, index as int);
        }
        if index < CHUNKS - 1 {
            Chunk { start: index * size, len: size }
        } else {
            Chunk { start: (CHUNKS - 1) * size, len: pixels - (CHUNKS - 1) * size }
        }
    }

    /// All chunks of the frame, in the order of their pixels.
    pub fn chunks(&self) -> (chunks: Vec<Chunk>)
        requires
            self.valid(),
        ensures
            chunks@.len() == CHUNKS,
            forall|i: int|
                0 <= i < CHUNKS ==> (#[trigger] chunks@[i]).start == chunk_of(
                    self.width,
                    self.height,
                    i,
                ).0 && chunks@[i].len == chunk_of(self.width, self.height, i).1,
    {
        let mut chunks: Vec<Chunk> = Vec::with_capacity(CHUNKS);
        let mut index: usize = 0;
        while index < CHUNKS
            invariant
                self.valid(),
                index <= CHUNKS,
                chunks@.len() == index,
                forall|i: int|
                    0 <= i < index ==> (#[trigger] chunks@[i]).start == chunk_of(
                        self.width,
                        self.height,
                        i,
                    ).0 && chunks@[i].len == chunk_of(self.width, self.height, i).1,
            decreases CHUNKS - index,
        {
            chunks.push(self.chunk(index));
            index += 1;
        }
        chunks
    }

    /// The column of a pixel, counted from the left, and its row, counted from
    /// the bottom.
    pub fn position(&self, pixel: usize) -> (position: (usize, usize))
        requires
            self.valid(),
            pixel < pixels_of(self.width, self.height),
        ensures
            position.0 == column_of(self.width, pixel),
            position.1 == row_of(self.width, self.height, pixel),
    {
        proof {
            lemma_position_of_pixel(self.width, self.height, pixel);
        }
        (pixel % self.width, self.height - 1 - pixel / self.width)
    }

    /// The number of sample points in the block of the chunk with the given
    /// index: one for each ray through each of its pixels.
    pub fn sample_count(&self, index: usize) -> (count: usize)
        requires
            self.valid(),
            index < CHUNKS,
        ensures
            count == chunk_of(self.width, self.height, index as int).1 * self.sample_rate,
    {
        let chunk = self.chunk(index);
        proof {
            lemma_chunk_bounds(self.width, self.height, index as int);
        }
        assert(chunk.len * self.sample_rate <= usize::MAX) by (nonlinear_arith)
            requires
                0 <= chunk.len <= chunk_of(self.width, self.height, CHUNKS - 1).1,
                chunk_of(self.width, self.height, CHUNKS - 1).1 * self.sample_rate <= usize::MAX,
                self.sample_rate >= 0,
        ;
        chunk.len * (self.sample_rate as usize)
    }
}

/// A slot of a block of `count` sample points, drawn at random.
pub fn random_slot(count: usize) -> (slot: usize)
    requires
        count > 0,
    ensures
        slot < count,
{
    random_index(count)
}

/// The slot that comes `step` slots after `offset` in a block of `count` slots
/// that is walked round and round.
pub fn sample_slot(offset: usize, step: usize, count: usize) -> (slot: usize)
    requires
        offset < count,
        step <= count,
    ensures
        slot == slot_after(offset, step, count),
        slot < count,
{
    if offset >= count - step {
        let slot = offset - (count - step);
        assert(slot == (offset + step) % (count as int)) by (nonlinear_arith)
            requires
                slot == offset + step - count,
                0 <= slot < count,
        ;
        slot
    } else {
        let slot = offset + step;
        assert(slot == (offset + step) % (count as int)) by (nonlinear_arith)
            requires
                slot == offset + step,
                0 <= slot < count,
        ;
        slot
    }
}

} // verus!
