//! Offscreen frames for shared memory: row alignment, pixel layout, and the
//! single-slot hand-off of the newest frame.

use vstd::prelude::*;

verus! {

/// A single-slot hand-off between a producer and a consumer: a new frame
/// replaces any unread one, and the consumer takes the newest.
pub struct FrameSlot<T> {
    /// The newest frame not yet taken.
    pub latest: Option<T>,
}

/// The slot after frame `f` is published.
pub open spec fn published<T>(slot: Option<T>, f: T) -> Option<T> {
    Some(f)
}

/// What a take returns, and the slot it leaves.
pub open spec fn taken<T>(slot: Option<T>) -> (Option<T>, Option<T>) {
    (slot, None)
}

impl<T> FrameSlot<T> {
    /// An empty slot.
    pub fn new() -> (r: Self)
        ensures
            r.latest is None,
    {
        FrameSlot { latest: None }
    }

    /// Publishes a completed frame, discarding an unread older one.
    pub fn publish(&mut self, frame: T)
        ensures
            final(self).latest == published(old(self).latest, frame),
    {
        self.latest = Some(frame);
    }

    /// Takes the newest completed frame, if any, without waiting.
    pub fn try_take_latest(&mut self) -> (r: Option<T>)
        ensures
            (r, final(self).latest) == taken(old(self).latest),
    {
        self.latest.take()
    }
}

/// After frames `f1`, `f2`, `f3` are published to an empty slot, a take
/// returns `f3` alone and leaves the slot empty, so a second take returns
/// nothing.
pub proof fn lemma_latest_wins<T>(f1: T, f2: T, f3: T)
    ensures
        taken(published(published(published(None::<T>, f1), f2), f3)) == (Some(f3), None::<T>),
        taken(taken(published(published(published(None::<T>, f1), f2), f3)).1).0 is None,
{
}

/// The row alignment, in bytes, of a texture-to-buffer copy.
pub open spec fn row_alignment() -> int {
    256
}

/// Relies on `wgpu::COPY_BYTES_PER_ROW_ALIGNMENT`: the alignment that a
/// texture-to-buffer copy requires of each row, 256 bytes.
#[verifier::external_body]
fn copy_row_alignment() -> (r: u32)
    ensures
        r == row_alignment(),
{
    wgpu::COPY_BYTES_PER_ROW_ALIGNMENT
}

/// The bytes of a row of `width` four-byte pixels, rounded up to the copy
/// alignment.
pub open spec fn aligned_row(width: int) -> int {
    ((4 * width + row_alignment() - 1) / row_alignment()) * row_alignment()
}

/// The bytes of a row of `width` four-byte pixels, rounded up to the copy
/// alignment.
pub fn aligned_bytes_per_row(width: u32) -> (r: u32)
    requires
        4 * width + 255 <= u32::MAX,
    ensures
        r == aligned_row(width as int),
        r % 256 == 0,
        4 * width <= r < 4 * width + 256,
{
    let alignment = copy_row_alignment();
    assert(alignment == 256);
    let unpadded = width * 4;
    let r = ((unpadded + (alignment - 1)) / alignment) * alignment;
    assert(r == aligned_row(width as int));
    r
}

/// One row of `n` pixels starting at byte `start`, with the red and blue bytes
/// of each pixel swapped.
pub open spec fn swapped_row(data: Seq<u8>, start: int, n: nat) -> Seq<u8>
    decreases n,
{
    if n == 0 {
        Seq::empty()
    } else {
        let p = start + 4 * (n - 1);
        swapped_row(data, start, (n - 1) as nat) + seq![data[p + 2], data[p + 1], data[p], data[p + 3]]
    }
}

/// The first `rows` rows of `width` pixels each, `stride` bytes apart, with
/// the red and blue bytes of each pixel swapped.
pub open spec fn swapped_rows(data: Seq<u8>, width: nat, stride: nat, rows: nat) -> Seq<u8>
    decreases rows,
{
    if rows == 0 {
        Seq::empty()
    } else {
        swapped_rows(data, width, stride, (rows - 1) as nat) + swapped_row(data, (rows - 1) * stride, width)
    }
}

/// The first `rows` rows of `width` pixels each, `stride` bytes apart, with the
/// padding at the end of each row dropped.
pub open spec fn packed_rows(data: Seq<u8>, width: nat, stride: nat, rows: nat) -> Seq<u8>
    decreases rows,
{
    if rows == 0 {
        Seq::empty()
    } else {
        packed_rows(data, width, stride, (rows - 1) as nat) + data.subrange(
            (rows - 1) * stride,
            (rows - 1) * stride + 4 * width,
        )
    }
}

/// Pixels read back from a GPU buffer, rows `aligned_stride` bytes apart, in
/// the byte order of a shared-memory ARGB buffer: each pixel's red and blue
/// bytes swapped, rows packed.
pub fn shm_pixels_from_rgba(data: &Vec<u8>, width: u32, height: u32, aligned_stride: u32) -> (r: Vec<u8>)
    requires
        4 * width <= aligned_stride,
        height * aligned_stride <= data@.len(),
    ensures
        r@ == swapped_rows(data@, width as nat, aligned_stride as nat, height as nat),
{
    let len = data.len();
    let mut r: Vec<u8> = Vec::new();
    let mut row: u32 = 0;
    while row < height
        invariant
            0 <= row <= height,
            len == data@.len(),
            4 * width <= aligned_stride,
            height * aligned_stride <= data@.len(),
            r@ == swapped_rows(data@, width as nat, aligned_stride as nat, row as nat),
        decreases height - row,
    {
        assert((row as int) * (aligned_stride as int) + (aligned_stride as int) <= (height as int) * (aligned_stride as int)) by (nonlinear_arith)
            requires row < height, aligned_stride >= 0;
        let start: usize = (row as usize) * (aligned_stride as usize);
        let mut px: u32 = 0;
        let ghost before = r@;
        while px < width
            invariant
                0 <= px <= width,
                4 * width <= aligned_stride,
                start as int == (row as int) * (aligned_stride as int),
                start + aligned_stride <= data@.len(),
                len == data@.len(),
                r@ == before + swapped_row(data@, start as int, px as nat),
            decreases width - px,
        {
            let p: usize = start + 4 * (px as usize);
            r.push(data[p + 2]);
            r.push(data[p + 1]);
            r.push(data[p]);
            r.push(data[p + 3]);
            proof {
                assert(swapped_row(data@, start as int, (px + 1) as nat) == swapped_row(data@, start as int, px as nat) + seq![
                    data@[p + 2], data@[p + 1], data@[p as int], data@[p + 3]]);
                assert(r@ =~= before + swapped_row(data@, start as int, (px + 1) as nat));
            }
            px = px + 1;
        }
        proof {
            assert(swapped_rows(data@, width as nat, aligned_stride as nat, (row + 1) as nat) == swapped_rows(data@, width as nat, aligned_stride as nat, row as nat) + swapped_row(data@, row * aligned_stride, width as nat));
        }
        row = row + 1;
    }
    r
}

/// The pixel bytes of a GPU read-back buffer without row padding: the buffer
/// itself when rows are not padded, else its rows packed.
pub open spec fn unpadded(data: Seq<u8>, width: nat, height: nat, bytes_per_row: nat) -> Seq<u8> {
    if bytes_per_row == 4 * width {
        data
    } else {
        packed_rows(data, width, bytes_per_row, height)
    }
}

/// Drops the padding at the end of each row of a GPU read-back buffer.
pub fn strip_row_padding(data: &Vec<u8>, width: u32, height: u32, bytes_per_row: u32) -> (r: Vec<u8>)
    requires
        4 * width <= bytes_per_row,
        height * bytes_per_row <= data@.len(),
    ensures
        r@ == unpadded(data@, width as nat, height as nat, bytes_per_row as nat),
{
    if bytes_per_row as u64 == 4 * (width as u64) {
        let mut r: Vec<u8> = Vec::new();
        let mut i: usize = 0;
        while i < data.len()
            invariant
                0 <= i <= data@.len(),
                r@ == data@.subrange(0, i as int),
            decreases data@.len() - i,
        {
            r.push(data[i]);
            i = i + 1;
            assert(r@ =~= data@.subrange(0, i as int));
        }
        assert(data@.subrange(0, data@.len() as int) =~= data@);
        return r;
    }
    let len = data.len();
    let mut r: Vec<u8> = Vec::new();
    let mut row: u32 = 0;
    while row < height
        invariant
            0 <= row <= height,
            len == data@.len(),
            4 * width <= bytes_per_row,
            height * bytes_per_row <= data@.len(),
            r@ == packed_rows(data@, width as nat, bytes_per_row as nat, row as nat),
        decreases height - row,
    {
        assert((row as int) * (bytes_per_row as int) + (bytes_per_row as int) <= (height as int) * (bytes_per_row as int)) by (nonlinear_arith)
            requires row < height, bytes_per_row >= 0;
        let start: usize = (row as usize) * (bytes_per_row as usize);
        let end: usize = start + 4 * (width as usize);
        let ghost before = r@;
        let mut i: usize = start;
        while i < end
            invariant
                start <= i <= end,
                end <= data@.len(),
                r@ == before + data@.subrange(start as int, i as int),
            decreases end - i,
        {
            r.push(data[i]);
            i = i + 1;
            assert(r@ =~= before + data@.subrange(start as int, i as int));
        }
        row = row + 1;
    }
    r
}

} // verus!
