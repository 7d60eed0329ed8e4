//! Planning the memory range that backs an image.
//!
//! The range is found in two steps. The segment table is walked once for the
//! largest alignment, the lowest address and the highest address of the
//! loadable segments; only then are the two bounds rounded, both to that
//! largest alignment. A segment late in the table that asks for more than the
//! ones before it therefore moves both bounds, whatever the order of the table.

use vstd::prelude::*;
use vstd::arithmetic::power2::is_pow2;
use crate::align::{align_down, align_up, lemma_round_down, lemma_round_up, round_down, round_up};
use crate::error::BootError;
use crate::segment::SegmentDescriptor;

verus! {

/// The page size of the platforms that this loader is built for.
pub const PAGE_SIZE: u64 = 0x1000;

/// Some segment of the table is loadable.
pub open spec fn has_loadable(segments: Seq<SegmentDescriptor>) -> bool {
    exists|i: int| 0 <= i < segments.len() && (#[trigger] segments[i]).is_loadable()
}

/// The largest of the page size and the alignments of the loadable segments.
pub open spec fn required_alignment(segments: Seq<SegmentDescriptor>, page_size: u64) -> int
    decreases segments.len(),
{
    if segments.len() == 0 {
        page_size as int
    } else {
        let before = required_alignment(segments.drop_last(), page_size);
        if segments.last().is_loadable() && segments.last().align > before {
            segments.last().align as int
        } else {
            before
        }
    }
}

/// The lowest virtual address of a loadable segment; the highest address
/// there is where no segment is loadable.
pub open spec fn lowest_addr(segments: Seq<SegmentDescriptor>) -> int
    decreases segments.len(),
{
    if segments.len() == 0 {
        u64::MAX as int
    } else {
        let before = lowest_addr(segments.drop_last());
        if segments.last().is_loadable() && segments.last().virtual_addr < before {
            segments.last().virtual_addr as int
        } else {
            before
        }
    }
}

/// The highest end of a loadable segment; zero where no segment is loadable.
pub open spec fn highest_addr(segments: Seq<SegmentDescriptor>) -> int
    decreases segments.len(),
{
    if segments.len() == 0 {
        0
    } else {
        let before = highest_addr(segments.drop_last());
        if segments.last().is_loadable() && segments.last().end_addr() > before {
            segments.last().end_addr()
        } else {
            before
        }
    }
}

/// The end of the planned range is an address: it does not pass `u64::MAX`.
pub open spec fn image_fits(segments: Seq<SegmentDescriptor>, page_size: u64) -> bool {
    round_up(highest_addr(segments), required_alignment(segments, page_size)) <= u64::MAX
}

/// The memory range that backs every loadable segment of an image.
#[derive(Clone, Copy, Debug, PartialEq, Eq, Structural)]
pub struct ImageLayout {
    /// Alignment of the range: of its start, of its end, and of the memory
    /// that is acquired for it.
    pub alignment: u64,
    /// Virtual address of the first byte of the range.
    pub start: u64,
    /// Virtual address one past the last byte of the range.
    pub end: u64,
}

impl ImageLayout {
    /// Both bounds are multiples of the alignment, and the start is not above
    /// the end.
    pub open spec fn well_formed(&self) -> bool {
        &&& self.alignment > 0
        &&& self.start <= self.end
        &&& self.start % self.alignment == 0
        &&& self.end % self.alignment == 0
    }

    /// Number of bytes in the range.
    pub open spec fn spec_size(&self) -> int {
        self.end - self.start
    }

    /// The whole segment lies in the range.
    pub open spec fn spec_covers(&self, segment: &SegmentDescriptor) -> bool {
        self.start <= segment.virtual_addr && segment.end_addr() <= self.end
    }

    /// Offset in the range of the byte at virtual address `addr`.
    pub open spec fn offset_of(&self, addr: u64) -> int {
        addr - self.start
    }

    /// Whether both bounds are multiples of the alignment, and the start is
    /// not above the end.
    pub fn is_well_formed(&self) -> (ok: bool)
        ensures
            ok == self.well_formed(),
    {
        self.alignment > 0 && self.start <= self.end && self.start % self.alignment == 0
            && self.end % self.alignment == 0
    }

    /// Number of bytes in the range.
    pub fn size(&self) -> (size: u64)
        requires
            self.start <= self.end,
        ensures
            size == self.spec_size(),
    {
        self.end - self.start
    }

    /// Whether the whole segment lies in the range.
    #[verifier::when_used_as_spec(spec_covers)]
    pub fn covers(&self, segment: &SegmentDescriptor) -> (inside: bool)
        ensures
            inside == self.spec_covers(segment),
    {
        self.start <= segment.virtual_addr && segment.mem_size <= self.end
            && segment.virtual_addr <= self.end - segment.mem_size
    }
}

/// The layout that the planner gives for a segment table, or `EmptyImage`
/// where nothing in the table is loadable.
pub open spec fn planned_layout(segments: Seq<SegmentDescriptor>, page_size: u64) -> Result<
    ImageLayout,
    BootError,
> {
    if !has_loadable(segments) {
        Err(BootError::EmptyImage)
    } else {
        let alignment = required_alignment(segments, page_size);
        Ok(
            ImageLayout {
                alignment: alignment as u64,
                start: round_down(lowest_addr(segments), alignment) as u64,
                end: round_up(highest_addr(segments), alignment) as u64,
            },
        )
    }
}

/// The required alignment is the maximum of the page size and the alignments
/// of the loadable segments: it is not below any of them, and it is one of
/// them.
pub proof fn lemma_required_alignment_is_max(segments: Seq<SegmentDescriptor>, page_size: u64)
    ensures
        page_size <= required_alignment(segments, page_size) <= u64::MAX,
        forall|i: int|
            0 <= i < segments.len() && (#[trigger] segments[i]).is_loadable() ==> segments[i].align
                <= required_alignment(segments, page_size),
        required_alignment(segments, page_size) == page_size || exists|i: int|
            0 <= i < segments.len() && (#[trigger] segments[i]).is_loadable() && segments[i].align
                == required_alignment(segments, page_size),
    decreases segments.len(),
{
    if segments.len() > 0 {
        let before = segments.drop_last();
        lemma_required_alignment_is_max(before, page_size);
        assert forall|i: int|
            0 <= i < segments.len() && (#[trigger] segments[i]).is_loadable() implies segments[i].align
            <= required_alignment(segments, page_size) by {
            if i < before.len() {
                assert(before[i] == segments[i]);
            }
        }
        let a = required_alignment(segments, page_size);
        if a != page_size {
            if a == required_alignment(before, page_size) {
                let i = choose|i: int|
                    0 <= i < before.len() && (#[trigger] before[i]).is_loadable() && before[i].align
                        == a;
                assert(segments[i] == before[i]);
            } else {
                assert(segments[segments.len() - 1] == segments.last());
            }
        }
    }
}

/// The lowest address is the minimum of the virtual addresses of the loadable
/// segments.
pub proof fn lemma_lowest_addr_is_min(segments: Seq<SegmentDescriptor>)
    ensures
        0 <= lowest_addr(segments) <= u64::MAX,
        forall|i: int|
            0 <= i < segments.len() && (#[trigger] segments[i]).is_loadable() ==> lowest_addr(
                segments,
            ) <= segments[i].virtual_addr,
        has_loadable(segments) ==> exists|i: int|
            0 <= i < segments.len() && (#[trigger] segments[i]).is_loadable()
                && segments[i].virtual_addr == lowest_addr(segments),
    decreases segments.len(),
{
    if segments.len() > 0 {
        let before = segments.drop_last();
        let last = segments.len() - 1;
        lemma_lowest_addr_is_min(before);
        assert(segments[last] == segments.last());
        assert forall|i: int|
            0 <= i < segments.len() && (#[trigger] segments[i]).is_loadable() implies lowest_addr(
            segments,
        ) <= segments[i].virtual_addr by {
            if i < before.len() {
                assert(before[i] == segments[i]);
            }
        }
        if has_loadable(segments) {
            if lowest_addr(segments) == lowest_addr(before) && has_loadable(before) {
                let i = choose|i: int|
                    0 <= i < before.len() && (#[trigger] before[i]).is_loadable()
                        && before[i].virtual_addr == lowest_addr(before);
                assert(segments[i] == before[i]);
            } else if lowest_addr(segments) == lowest_addr(before) {
                let k = choose|k: int| 0 <= k < segments.len() && (#[trigger] segments[k]).is_loadable();
                if k < before.len() {
                    assert(before[k] == segments[k]);
                    assert(has_loadable(before));
                }
                assert(k == last);
                lemma_without_loadable(before);
            }
        }
    }
}

/// Where no segment is loadable, the lowest address is the highest address
/// there is, and the highest address is zero.
pub proof fn lemma_without_loadable(segments: Seq<SegmentDescriptor>)
    requires
        !has_loadable(segments),
    ensures
        lowest_addr(segments) == u64::MAX,
        highest_addr(segments) == 0,
    decreases segments.len(),
{
    if segments.len() > 0 {
        let before = segments.drop_last();
        assert(segments[segments.len() - 1] == segments.last());
        assert(!segments.last().is_loadable());
        assert(!has_loadable(before)) by {
            if has_loadable(before) {
                let i = choose|i: int| 0 <= i < before.len() && (#[trigger] before[i]).is_loadable();
                assert(segments[i] == before[i]);
            }
        }
        lemma_without_loadable(before);
    }
}

/// The highest address is the maximum of the ends of the loadable segments.
pub proof fn lemma_highest_addr_is_max(segments: Seq<SegmentDescriptor>)
    ensures
        0 <= highest_addr(segments),
        forall|i: int|
            0 <= i < segments.len() && (#[trigger] segments[i]).is_loadable()
                ==> segments[i].end_addr() <= highest_addr(segments),
        has_loadable(segments) ==> exists|i: int|
            0 <= i < segments.len() && (#[trigger] segments[i]).is_loadable()
                && segments[i].end_addr() == highest_addr(segments),
    decreases segments.len(),
{
    if segments.len() > 0 {
        let before = segments.drop_last();
        let last = segments.len() - 1;
        lemma_highest_addr_is_max(before);
        assert(segments[last] == segments.last());
        assert forall|i: int|
            0 <= i < segments.len() && (#[trigger] segments[i]).is_loadable()
            implies segments[i].end_addr() <= highest_addr(segments) by {
            if i < before.len() {
                assert(before[i] == segments[i]);
            }
        }
        if has_loadable(segments) {
            if highest_addr(segments) == highest_addr(before) && has_loadable(before) {
                let i = choose|i: int|
                    0 <= i < before.len() && (#[trigger] before[i]).is_loadable()
                        && before[i].end_addr() == highest_addr(before);
                assert(segments[i] == before[i]);
            } else if highest_addr(segments) == highest_addr(before) {
                let k = choose|k: int| 0 <= k < segments.len() && (#[trigger] segments[k]).is_loadable();
                if k < before.len() {
                    assert(before[k] == segments[k]);
                    assert(has_loadable(before));
                }
                assert(k == last);
                lemma_without_loadable(before);
            }
        }
    }
}

/// What one walk over the segment table finds.
struct Extent {
    alignment: u64,
    lowest: u64,
    highest: u64,
    loadable: bool,
}

/// The three folds over a table grow with the table.
proof fn lemma_prefix_step(segments: Seq<SegmentDescriptor>, i: int)
    requires
        0 <= i < segments.len(),
    ensures
        segments.take(i + 1).drop_last() == segments.take(i),
        segments.take(i + 1).last() == segments[i],
        has_loadable(segments.take(i + 1)) == (has_loadable(segments.take(i))
            || segments[i].is_loadable()),
{
    let longer = segments.take(i + 1);
    let shorter = segments.take(i);
    assert(longer.drop_last() =~= shorter);
    if has_loadable(shorter) {
        let k = choose|k: int| 0 <= k < shorter.len() && (#[trigger] shorter[k]).is_loadable();
        assert(longer[k] == shorter[k]);
    }
    if segments[i].is_loadable() {
        assert(longer[i] == segments[i]);
    }
    if has_loadable(longer) {
        let k = choose|k: int| 0 <= k < longer.len() && (#[trigger] longer[k]).is_loadable();
        if k < i {
            assert(shorter[k] == longer[k]);
        }
    }
}

/// Walks the table once. `None` where a loadable segment ends above
/// `u64::MAX`.
fn measure(segments: &[SegmentDescriptor], page_size: u64) -> (extent: Option<Extent>)
    ensures
        extent is None <==> highest_addr(segments@) > u64::MAX,
        extent is Some ==> {
            let found = extent.unwrap();
            &&& found.alignment == required_alignment(segments@, page_size)
            &&& found.lowest == lowest_addr(segments@)
            &&& found.highest == highest_addr(segments@)
            &&& found.loadable == has_loadable(segments@)
        },
{
    let mut alignment: u64 = page_size;
    let mut lowest: u64 = u64::MAX;
    let mut highest: u64 = 0;
    let mut loadable: bool = false;
    let mut i: usize = 0;
    while i < segments.len()
        invariant
            i <= segments@.len(),
            alignment == required_alignment(segments@.take(i as int), page_size),
            lowest == lowest_addr(segments@.take(i as int)),
            highest == highest_addr(segments@.take(i as int)),
            loadable == has_loadable(segments@.take(i as int)),
        decreases segments@.len() - i,
    {
        proof {
            lemma_prefix_step(segments@, i as int);
        }
        let segment = &segments[i];
        if segment.is_loadable() {
            if segment.align > alignment {
                alignment = segment.align;
            }
            if segment.virtual_addr < lowest {
                lowest = segment.virtual_addr;
            }
            match segment.virtual_addr.checked_add(segment.mem_size) {
                Some(end) => {
                    if end > highest {
                        highest = end;
                    }
                },
                None => {
                    proof {
                        lemma_highest_addr_is_max(segments@);
                    }
                    return None;
                },
            }
            loadable = true;
        }
        i += 1;
    }
    proof {
        assert(segments@.take(segments@.len() as int) =~= segments@);
    }
    Some(Extent { alignment, lowest, highest, loadable })
}

/// Whether the range that the planner would give for the table ends at an
/// address, which is what `plan_layout` asks of its input.
pub fn fits_address_space(segments: &[SegmentDescriptor], page_size: u64) -> (fits: bool)
    requires
        page_size > 0,
    ensures
        fits == image_fits(segments@, page_size),
{
    proof {
        lemma_required_alignment_is_max(segments@, page_size);
        lemma_highest_addr_is_max(segments@);
        lemma_round_up(highest_addr(segments@), required_alignment(segments@, page_size));
    }
    match measure(segments, page_size) {
        Some(found) => align_up(found.highest, found.alignment).is_some(),
        None => false,
    }
}

/// Plans the memory range for the loadable segments of a table.
///
/// The alignment of the range is the largest of `page_size` and the
/// alignments that the loadable segments ask for. The range starts at the
/// lowest virtual address of a loadable segment, rounded down to that
/// alignment, and ends at the highest end of one, rounded up to it. Fails with
/// `EmptyImage` where no segment is loadable.
pub fn plan_layout(segments: &[SegmentDescriptor], page_size: u64) -> (layout: Result<
    ImageLayout,
    BootError,
>)
    requires
        page_size > 0,
        image_fits(segments@, page_size),
    ensures
        layout == planned_layout(segments@, page_size),
        layout is Err <==> !has_loadable(segments@),
        layout is Err ==> layout == Err::<ImageLayout, BootError>(BootError::EmptyImage),
        layout is Ok ==> {
            let planned = layout.unwrap();
            &&& planned.well_formed()
            &&& planned.alignment == required_alignment(segments@, page_size)
            &&& planned.alignment >= page_size
            &&& forall|i: int|
                0 <= i < segments@.len() && (#[trigger] segments@[i]).is_loadable() ==> {
                    &&& planned.alignment >= segments@[i].align
                    &&& planned.start <= segments@[i].virtual_addr
                    &&& planned.end >= segments@[i].end_addr()
                }
        },
{
    proof {
        lemma_planned_layout(segments@, page_size);
    }
    let found = measure(segments, page_size).unwrap();
    if !found.loadable {
        return Err(BootError::EmptyImage);
    }
    let start = align_down(found.lowest, found.alignment);
    let end = align_up(found.highest, found.alignment).unwrap();
    Ok(ImageLayout { alignment: found.alignment, start, end })
}

/// The planned layout has the alignment that is the maximum of the page size
/// and of what the loadable segments ask for, its two bounds are multiples of
/// that alignment, and every loadable segment lies between them.
pub proof fn lemma_planned_layout(segments: Seq<SegmentDescriptor>, page_size: u64)
    requires
        page_size > 0,
        image_fits(segments, page_size),
    ensures
        planned_layout(segments, page_size) is Err <==> !has_loadable(segments),
        highest_addr(segments) <= u64::MAX,
        planned_layout(segments, page_size) is Ok ==> {
            let planned = planned_layout(segments, page_size).unwrap();
            &&& planned.well_formed()
            &&& planned.alignment == required_alignment(segments, page_size)
            &&& planned.start == round_down(lowest_addr(segments), planned.alignment as int)
            &&& planned.end == round_up(highest_addr(segments), planned.alignment as int)
            &&& planned.alignment >= page_size
            &&& forall|i: int|
                0 <= i < segments.len() && (#[trigger] segments[i]).is_loadable() ==> {
                    &&& planned.alignment >= segments[i].align
                    &&& planned.start <= segments[i].virtual_addr
                    &&& planned.end >= segments[i].end_addr()
                }
        },
{
    let alignment = required_alignment(segments, page_size);
    lemma_required_alignment_is_max(segments, page_size);
    lemma_lowest_addr_is_min(segments);
    lemma_highest_addr_is_max(segments);
    lemma_round_down(lowest_addr(segments), alignment);
    lemma_round_up(highest_addr(segments), alignment);
    if has_loadable(segments) {
        let k = choose|k: int| 0 <= k < segments.len() && (#[trigger] segments[k]).is_loadable();
        assert(lowest_addr(segments) <= segments[k].virtual_addr <= segments[k].end_addr()
            <= highest_addr(segments));
    }
}

/// Where the page size is a power of two, and so is every alignment that a
/// loadable segment asks for (zero asks for none), the required alignment is
/// a power of two.
pub proof fn lemma_alignment_is_power_of_two(segments: Seq<SegmentDescriptor>, page_size: u64)
    requires
        is_pow2(page_size as int),
        forall|i: int|
            0 <= i < segments.len() && (#[trigger] segments[i]).is_loadable() ==> segments[i].align
                == 0 || is_pow2(segments[i].align as int),
    ensures
        is_pow2(required_alignment(segments, page_size)),
{
    lemma_required_alignment_is_max(segments, page_size);
    assert(page_size > 0) by {
        reveal(is_pow2);
    }
}

/// Every loadable segment of `first` stands somewhere in `second`.
pub open spec fn loadable_within(first: Seq<SegmentDescriptor>, second: Seq<SegmentDescriptor>) -> bool {
    forall|i: int|
        0 <= i < first.len() && (#[trigger] first[i]).is_loadable() ==> exists|j: int|
            0 <= j < second.len() && #[trigger] second[j] == first[i]
}

/// The planned layout depends on which loadable segments a table holds, not
/// on where in the table they stand: two tables with the same loadable
/// segments have the same layout.
pub proof fn lemma_order_does_not_matter(
    first: Seq<SegmentDescriptor>,
    second: Seq<SegmentDescriptor>,
    page_size: u64,
)
    requires
        loadable_within(first, second),
        loadable_within(second, first),
    ensures
        required_alignment(first, page_size) == required_alignment(second, page_size),
        lowest_addr(first) == lowest_addr(second),
        highest_addr(first) == highest_addr(second),
        planned_layout(first, page_size) == planned_layout(second, page_size),
{
    lemma_not_above(first, second, page_size);
    lemma_not_above(second, first, page_size);
}

/// What a table asks for is not above what a table asks for that holds all
/// its loadable segments.
proof fn lemma_not_above(
    first: Seq<SegmentDescriptor>,
    second: Seq<SegmentDescriptor>,
    page_size: u64,
)
    requires
        loadable_within(first, second),
    ensures
        required_alignment(first, page_size) <= required_alignment(second, page_size),
        lowest_addr(first) >= lowest_addr(second),
        highest_addr(first) <= highest_addr(second),
        has_loadable(first) ==> has_loadable(second),
{
    lemma_required_alignment_is_max(first, page_size);
    lemma_required_alignment_is_max(second, page_size);
    lemma_lowest_addr_is_min(first);
    lemma_lowest_addr_is_min(second);
    lemma_highest_addr_is_max(first);
    lemma_highest_addr_is_max(second);
    if required_alignment(first, page_size) != page_size {
        let i = choose|i: int|
            0 <= i < first.len() && (#[trigger] first[i]).is_loadable() && first[i].align
                == required_alignment(first, page_size);
        let j = choose|j: int| 0 <= j < second.len() && #[trigger] second[j] == first[i];
        assert(second[j].is_loadable());
    }
    if has_loadable(first) {
        let i = choose|i: int|
            0 <= i < first.len() && (#[trigger] first[i]).is_loadable() && first[i].virtual_addr
                == lowest_addr(first);
        let j = choose|j: int| 0 <= j < second.len() && #[trigger] second[j] == first[i];
        assert(second[j].is_loadable());
        let k = choose|k: int|
            0 <= k < first.len() && (#[trigger] first[k]).is_loadable() && first[k].end_addr()
                == highest_addr(first);
        let m = choose|m: int| 0 <= m < second.len() && #[trigger] second[m] == first[k];
        assert(second[m].is_loadable());
    } else {
        lemma_without_loadable(first);
    }
}

} // verus!
