//! Filling the memory range of an image.
//!
//! The range is a slice of bytes that the caller has acquired, as long as the
//! layout says and filled with zeros. Loading writes the bytes that the file
//! holds for each loadable segment to the segment's place in the range and
//! writes nothing else, so what a segment takes in memory beyond its bytes in
//! the file still reads as zero afterwards.

use vstd::prelude::*;
use vstd::slice::slice_subrange;
use crate::error::BootError;
use crate::layout::{image_fits, lemma_planned_layout, planned_layout, ImageLayout};
use crate::segment::SegmentDescriptor;

verus! {

/// `memory` with `bytes` written over it from offset `at` on.
pub open spec fn placed(memory: Seq<u8>, at: int, bytes: Seq<u8>) -> Seq<u8> {
    Seq::new(
        memory.len(),
        |i: int|
            if at <= i < at + bytes.len() {
                bytes[i - at]
            } else {
                memory[i]
            },
    )
}

/// The segment's bytes in the file have a place in a range of `len` bytes
/// that is laid out by `layout`.
pub open spec fn placeable(layout: ImageLayout, segment: SegmentDescriptor, len: nat) -> bool {
    &&& layout.start <= segment.virtual_addr
    &&& layout.offset_of(segment.virtual_addr) + segment.file_size <= len
}

/// The file, whose content is `image`, holds all the bytes of the segment.
pub open spec fn readable(segment: SegmentDescriptor, image: Seq<u8>) -> bool {
    segment.file_offset + segment.file_size <= image.len()
}

/// The bytes that the file holds for the segment.
pub open spec fn file_bytes(segment: SegmentDescriptor, image: Seq<u8>) -> Seq<u8> {
    Seq::new(segment.file_size as nat, |i: int| image[segment.file_offset + i])
}

/// `j` is the offset of a byte that the file holds for the segment.
pub open spec fn file_backed(layout: ImageLayout, segment: SegmentDescriptor, j: int) -> bool {
    layout.offset_of(segment.virtual_addr) <= j < layout.offset_of(segment.virtual_addr)
        + segment.file_size
}

/// Every loadable segment of the table is placeable.
pub open spec fn all_placeable(
    layout: ImageLayout,
    segments: Seq<SegmentDescriptor>,
    len: nat,
) -> bool {
    forall|i: int|
        0 <= i < segments.len() && (#[trigger] segments[i]).is_loadable() ==> placeable(
            layout,
            segments[i],
            len,
        )
}

/// Every loadable segment of the table is readable.
pub open spec fn all_readable(segments: Seq<SegmentDescriptor>, image: Seq<u8>) -> bool {
    forall|i: int|
        0 <= i < segments.len() && (#[trigger] segments[i]).is_loadable() ==> readable(
            segments[i],
            image,
        )
}

/// `memory` after the loadable segments of the table have been placed in it,
/// in table order.
pub open spec fn loaded(
    memory: Seq<u8>,
    layout: ImageLayout,
    segments: Seq<SegmentDescriptor>,
    image: Seq<u8>,
) -> Seq<u8>
    decreases segments.len(),
{
    if segments.len() == 0 {
        memory
    } else {
        let before = loaded(memory, layout, segments.drop_last(), image);
        let segment = segments.last();
        if segment.is_loadable() {
            placed(before, layout.offset_of(segment.virtual_addr), file_bytes(segment, image))
        } else {
            before
        }
    }
}

/// In a range that is as long as the planned layout says, every loadable
/// segment that has no more bytes in the file than it takes in memory is
/// placeable.
pub proof fn lemma_planned_segments_are_placeable(
    segments: Seq<SegmentDescriptor>,
    page_size: u64,
    i: int,
)
    requires
        page_size > 0,
        image_fits(segments, page_size),
        0 <= i < segments.len(),
        segments[i].is_loadable(),
        segments[i].file_size <= segments[i].mem_size,
    ensures
        planned_layout(segments, page_size) is Ok,
        placeable(
            planned_layout(segments, page_size).unwrap(),
            segments[i],
            planned_layout(segments, page_size).unwrap().spec_size() as nat,
        ),
{
    lemma_planned_layout(segments, page_size);
}

/// Whether the segment's bytes in the file have a place in a range of `len`
/// bytes, which is what `place_segment` asks of its input.
pub fn can_place(layout: &ImageLayout, segment: &SegmentDescriptor, len: usize) -> (fits: bool)
    ensures
        fits == placeable(*layout, *segment, len as nat),
{
    if segment.virtual_addr < layout.start {
        return false;
    }
    let offset: u64 = segment.virtual_addr - layout.start;
    match offset.checked_add(segment.file_size) {
        Some(end) => end <= len as u64,
        None => false,
    }
}

/// Writes the bytes that the file holds for a segment to the segment's place
/// in `region`. `data` is what a read of the segment's `file_size` bytes at
/// its offset in the file gave.
///
/// A read that gave fewer bytes fails with `TruncatedRead` and leaves the
/// region as it was. Otherwise the first `file_size` bytes of `data` stand at
/// the segment's offset in the region, and every other byte of the region is
/// as before: also those that the segment takes in memory beyond its bytes in
/// the file.
pub fn place_segment(
    region: &mut [u8],
    layout: &ImageLayout,
    segment: &SegmentDescriptor,
    data: &[u8],
) -> (done: Result<(), BootError>)
    requires
        placeable(*layout, *segment, old(region)@.len()),
    ensures
        final(region)@.len() == old(region)@.len(),
        data@.len() < segment.file_size ==> done == Err::<(), BootError>(BootError::TruncatedRead)
            && final(region)@ == old(region)@,
        data@.len() >= segment.file_size ==> done == Ok::<(), BootError>(()) && final(region)@
            == placed(
            old(region)@,
            layout.offset_of(segment.virtual_addr),
            data@.take(segment.file_size as int),
        ),
        forall|j: int|
            0 <= j < old(region)@.len() && !file_backed(*layout, *segment, j) ==> final(region)@[j]
                == old(region)@[j],
{
    if (data.len() as u64) < segment.file_size {
        return Err(BootError::TruncatedRead);
    }
    let len: usize = region.len();
    let at: usize = (segment.virtual_addr - layout.start) as usize;
    let count: usize = segment.file_size as usize;
    assert(region@ =~= placed(old(region)@, at as int, data@.take(0)));
    let mut i: usize = 0;
    while i < count
        invariant
            i <= count <= data@.len(),
            at + count <= len,
            region@.len() == len,
            old(region)@.len() == len,
            region@ == placed(old(region)@, at as int, data@.take(i as int)),
        decreases count - i,
    {
        region[at + i] = data[i];
        i += 1;
        assert(region@ =~= placed(old(region)@, at as int, data@.take(i as int)));
    }
    Ok(())
}

/// Whether the file holds all the bytes of every loadable segment.
fn check_readable(segments: &[SegmentDescriptor], image: &[u8]) -> (ok: bool)
    ensures
        ok == all_readable(segments@, image@),
{
    let image_len: usize = image.len();
    let mut i: usize = 0;
    while i < segments.len()
        invariant
            i <= segments@.len(),
            image@.len() == image_len,
            all_readable(segments@.take(i as int), image@),
        decreases segments@.len() - i,
    {
        let segment = &segments[i];
        if segment.is_loadable() {
            let fits = match segment.file_offset.checked_add(segment.file_size) {
                Some(end) => end <= image_len as u64,
                None => false,
            };
            if !fits {
                assert(!readable(segments@[i as int], image@));
                return false;
            }
        }
        i += 1;
        assert forall|k: int|
            0 <= k < segments@.take(i as int).len() && (#[trigger] segments@.take(
                i as int,
            )[k]).is_loadable() implies readable(segments@.take(i as int)[k], image@) by {
            if k < i - 1 {
                assert(segments@.take(i - 1)[k] == segments@[k]);
            }
        }
    }
    assert(segments@.take(segments@.len() as int) =~= segments@);
    true
}

/// Loading keeps the length of the range.
pub proof fn lemma_loaded_len(
    memory: Seq<u8>,
    layout: ImageLayout,
    segments: Seq<SegmentDescriptor>,
    image: Seq<u8>,
)
    ensures
        loaded(memory, layout, segments, image).len() == memory.len(),
    decreases segments.len(),
{
    if segments.len() > 0 {
        lemma_loaded_len(memory, layout, segments.drop_last(), image);
    }
}

/// Loads an image that is held in memory: places every loadable segment of
/// the table in `region`, in table order, taking its bytes from `image`, the
/// content of the file.
///
/// Where the file ends before the bytes of some loadable segment do, nothing
/// is written and the result is `TruncatedRead`.
pub fn load_segments(
    region: &mut [u8],
    layout: &ImageLayout,
    segments: &[SegmentDescriptor],
    image: &[u8],
) -> (done: Result<(), BootError>)
    requires
        all_placeable(*layout, segments@, old(region)@.len()),
    ensures
        final(region)@.len() == old(region)@.len(),
        all_readable(segments@, image@) ==> done == Ok::<(), BootError>(()) && final(region)@
            == loaded(old(region)@, *layout, segments@, image@),
        !all_readable(segments@, image@) ==> done == Err::<(), BootError>(BootError::TruncatedRead)
            && final(region)@ == old(region)@,
{
    if !check_readable(segments, image) {
        return Err(BootError::TruncatedRead);
    }
    let len: usize = region.len();
    let image_len: usize = image.len();
    let mut i: usize = 0;
    while i < segments.len()
        invariant
            i <= segments@.len(),
            image@.len() == image_len,
            all_placeable(*layout, segments@, len as nat),
            all_readable(segments@, image@),
            old(region)@.len() == len,
            region@.len() == len,
            region@ == loaded(old(region)@, *layout, segments@.take(i as int), image@),
        decreases segments@.len() - i,
    {
        let segment = &segments[i];
        proof {
            assert(segments@.take(i + 1).drop_last() =~= segments@.take(i as int));
            assert(segments@.take(i + 1).last() == segments@[i as int]);
        }
        if segment.is_loadable() {
            assert(readable(segments@[i as int], image@));
            assert(placeable(*layout, segments@[i as int], len as nat));
            let from: usize = segment.file_offset as usize;
            let data = slice_subrange(image, from, from + segment.file_size as usize);
            assert(data@.take(segment.file_size as int) =~= file_bytes(*segment, image@));
            let _ = place_segment(region, layout, segment, data);
        }
        i += 1;
    }
    assert(segments@.take(segments@.len() as int) =~= segments@);
    Ok(())
}

/// After loading, a byte of the range that no loadable segment has in the
/// file is what it was before.
pub proof fn lemma_unbacked_byte_is_kept(
    memory: Seq<u8>,
    layout: ImageLayout,
    segments: Seq<SegmentDescriptor>,
    image: Seq<u8>,
    j: int,
)
    requires
        0 <= j < memory.len(),
        forall|i: int|
            0 <= i < segments.len() && (#[trigger] segments[i]).is_loadable() ==> !file_backed(
                layout,
                segments[i],
                j,
            ),
    ensures
        loaded(memory, layout, segments, image)[j] == memory[j],
    decreases segments.len(),
{
    if segments.len() > 0 {
        let before = segments.drop_last();
        assert forall|i: int|
            0 <= i < before.len() && (#[trigger] before[i]).is_loadable() implies !file_backed(
            layout,
            before[i],
            j,
        ) by {
            assert(before[i] == segments[i]);
        }
        lemma_unbacked_byte_is_kept(memory, layout, before, image, j);
        lemma_loaded_len(memory, layout, before, image);
        assert(segments[segments.len() - 1] == segments.last());
    }
}

/// After loading into a range of zeros, what a loadable segment takes in
/// memory beyond its bytes in the file reads as zero, as long as no other
/// segment has bytes of the file there.
pub proof fn lemma_beyond_file_size_reads_zero(
    memory: Seq<u8>,
    layout: ImageLayout,
    segments: Seq<SegmentDescriptor>,
    image: Seq<u8>,
    k: int,
    j: int,
)
    requires
        forall|i: int| 0 <= i < memory.len() ==> memory[i] == 0,
        0 <= k < segments.len(),
        segments[k].is_loadable(),
        layout.start <= segments[k].virtual_addr,
        layout.offset_of(segments[k].virtual_addr) + segments[k].file_size <= j
            < layout.offset_of(segments[k].virtual_addr) + segments[k].mem_size,
        j < memory.len(),
        forall|i: int|
            0 <= i < segments.len() && i != k && (#[trigger] segments[i]).is_loadable()
                ==> !file_backed(layout, segments[i], j),
    ensures
        loaded(memory, layout, segments, image)[j] == 0,
{
    lemma_unbacked_byte_is_kept(memory, layout, segments, image, j);
}

/// After loading, a byte that a loadable segment has in the file stands at
/// its place in the range, as long as no segment later in the table has bytes
/// of the file there.
pub proof fn lemma_file_bytes_arrive(
    memory: Seq<u8>,
    layout: ImageLayout,
    segments: Seq<SegmentDescriptor>,
    image: Seq<u8>,
    k: int,
    j: int,
)
    requires
        0 <= k < segments.len(),
        segments[k].is_loadable(),
        readable(segments[k], image),
        file_backed(layout, segments[k], j),
        0 <= j < memory.len(),
        forall|i: int|
            k < i < segments.len() && (#[trigger] segments[i]).is_loadable() ==> !file_backed(
                layout,
                segments[i],
                j,
            ),
    ensures
        loaded(memory, layout, segments, image)[j] == image[segments[k].file_offset + (j
            - layout.offset_of(segments[k].virtual_addr))],
    decreases segments.len(),
{
    let before = segments.drop_last();
    let last = segments.len() - 1;
    lemma_loaded_len(memory, layout, before, image);
    assert(segments[last] == segments.last());
    if k < last {
        assert(before[k] == segments[k]);
        assert forall|i: int|
            k < i < before.len() && (#[trigger] before[i]).is_loadable() implies !file_backed(
            layout,
            before[i],
            j,
        ) by {
            assert(before[i] == segments[i]);
        }
        lemma_file_bytes_arrive(memory, layout, before, image, k, j);
    }
}

/// An image in memory, ready to be entered. Once control has passed to it,
/// the memory is the kernel's: nothing here frees it or touches it again.
#[derive(Clone, Copy, Debug, PartialEq, Eq, Structural)]
pub struct LoadedImage {
    /// Address of the first byte of the acquired memory.
    pub base: u64,
    /// Number of bytes of the acquired memory.
    pub size: u64,
    /// Address at which the kernel is entered.
    pub entry_address: u64,
}

impl LoadedImage {
    /// Where the entry point of an image lies once its range stands at
    /// `base`: as far above `base` as the entry point is above the start of
    /// the range.
    pub open spec fn entry_of(base: u64, layout: ImageLayout, entry_point: u64) -> int {
        base + (entry_point - layout.start)
    }

    /// Describes the image whose range has been acquired at `base`.
    ///
    /// `None` where the address of the entry point is no `u64`. The entry
    /// point is not held to lie in the range: where it lies outside, so does
    /// the entry address.
    pub fn new(base: u64, layout: &ImageLayout, entry_point: u64) -> (image: Option<LoadedImage>)
        requires
            layout.well_formed(),
        ensures
            image is Some <==> 0 <= LoadedImage::entry_of(base, *layout, entry_point) <= u64::MAX,
            image is Some ==> {
                let loaded = image.unwrap();
                &&& loaded.base == base
                &&& loaded.size == layout.spec_size()
                &&& loaded.entry_address == LoadedImage::entry_of(base, *layout, entry_point)
                &&& loaded.entry_address - base == entry_point - layout.start
            },
    {
        let entry_address = if entry_point >= layout.start {
            base.checked_add(entry_point - layout.start)
        } else {
            base.checked_sub(layout.start - entry_point)
        };
        match entry_address {
            Some(entry_address) => Some(LoadedImage { base, size: layout.size(), entry_address }),
            None => None,
        }
    }
}

} // verus!
