//! The mathematical picture of a line of blocks: what each operation of the
//! allocator makes of it, written over sequences and natural numbers.

use vstd::prelude::*;

verus! {

/// What a block is, with its extent as a natural number.
pub enum BlockView<Id> {
    /// A free run of the given extent.
    Gap(nat),
    /// A run of the given extent, occupied by the identifier.
    Full(Id, nat),
}

impl<Id> BlockView<Id> {
    /// How much of the line the block covers.
    pub open spec fn extent(self) -> nat {
        match self {
            BlockView::Gap(size) => size,
            BlockView::Full(_, size) => size,
        }
    }

    /// Whether the block is free and at least `size` long.
    pub open spec fn admits(self, size: nat) -> bool {
        self is Gap && self.extent() >= size
    }

    /// Whether the block is occupied by `id`.
    pub open spec fn owned_by(self, id: Id) -> bool {
        match self {
            BlockView::Gap(_) => false,
            BlockView::Full(owner, _) => owner == id,
        }
    }
}

/// Where an identifier sits on the line: the offset at which its block
/// starts and the extent it covers.
pub struct Placement<Id> {
    pub id: Id,
    pub offset: nat,
    pub size: nat,
}

/// The extent of the whole line: the sum of the extents of its blocks.
pub open spec fn span<Id>(line: Seq<BlockView<Id>>) -> nat
    decreases line.len(),
{
    if line.len() == 0 {
        0
    } else {
        span(line.drop_last()) + line.last().extent()
    }
}

/// The offset at which the block of index `index` starts: the sum of the
/// extents of the blocks before it.
pub open spec fn offset_at<Id>(line: Seq<BlockView<Id>>, index: int) -> nat {
    span(line.take(index))
}

/// The index of the first block of which `wanted` holds, if there is one.
pub open spec fn first_where<Id>(
    line: Seq<BlockView<Id>>,
    wanted: spec_fn(BlockView<Id>) -> bool,
) -> Option<int>
    decreases line.len(),
{
    if line.len() == 0 {
        None
    } else {
        match first_where(line.drop_last(), wanted) {
            Some(index) => Some(index),
            None => if wanted(line.last()) {
                Some(line.len() - 1)
            } else {
                None
            },
        }
    }
}

/// The index of the first gap that is at least `size` long, if there is one.
pub open spec fn first_fit<Id>(line: Seq<BlockView<Id>>, size: nat) -> Option<int> {
    first_where(line, |block: BlockView<Id>| block.admits(size))
}

/// The index of the first block that `id` occupies, if there is one.
pub open spec fn position<Id>(line: Seq<BlockView<Id>>, id: Id) -> Option<int> {
    first_where(line, |block: BlockView<Id>| block.owned_by(id))
}

/// The index at which a new block of extent `size` goes: the first gap that
/// holds it, or the end of the line.
pub open spec fn landing_index<Id>(line: Seq<BlockView<Id>>, size: nat) -> int {
    match first_fit(line, size) {
        Some(index) => index,
        None => line.len() as int,
    }
}

/// The offset at which a new block of extent `size` goes.
pub open spec fn landing<Id>(line: Seq<BlockView<Id>>, size: nat) -> nat {
    offset_at(line, landing_index(line, size))
}

/// The line with the block at `index` replaced by a block of `id` of extent
/// `size`, followed by a gap that keeps the `rest` of the extent.
pub open spec fn split_at<Id>(
    line: Seq<BlockView<Id>>,
    index: int,
    id: Id,
    size: nat,
    rest: nat,
) -> Seq<BlockView<Id>> {
    line.take(index) + seq![BlockView::Full(id, size), BlockView::Gap(rest)] + line.skip(index + 1)
}

/// The line once `id` has been given `size`: in the first gap that holds it,
/// whose remainder stays a gap, or at the end of the line.
pub open spec fn placed<Id>(line: Seq<BlockView<Id>>, id: Id, size: nat) -> Seq<BlockView<Id>> {
    match first_fit(line, size) {
        Some(index) => if line[index].extent() > size {
            split_at(line, index, id, size, (line[index].extent() - size) as nat)
        } else {
            line.update(index, BlockView::Full(id, size))
        },
        None => line.push(BlockView::Full(id, size)),
    }
}

/// What a caller says of the gap that a new block is to fill: its index and
/// its extent; `None` puts the block at the end of the line.
pub type GapView = Option<(int, nat)>;

/// The line with a block of `id` of extent `size` put where `gap` says:
/// in place of the block at that index, followed by a gap for what the gap
/// has beyond `size`, or at the end of the line.
pub open spec fn substituted<Id>(line: Seq<BlockView<Id>>, gap: GapView, id: Id, size: nat) -> Seq<
    BlockView<Id>,
> {
    match gap {
        Some((index, gap_size)) => if gap_size > size {
            split_at(line, index, id, size, (gap_size - size) as nat)
        } else {
            line.update(index, BlockView::Full(id, size))
        },
        None => line.push(BlockView::Full(id, size)),
    }
}

/// The span of the line once a block of extent `size` has been put where
/// `gap` says: the block at the gap's index gives way to the new block, and
/// to the gap for the remainder where the gap is said to be larger.
pub open spec fn span_substituted<Id>(line: Seq<BlockView<Id>>, gap: GapView, size: nat) -> int {
    match gap {
        Some((index, gap_size)) => span(line) - line[index].extent() + if gap_size > size {
            gap_size
        } else {
            size
        },
        None => (span(line) + size) as int,
    }
}

/// The line after a block has been put where `gap` says; where that split a
/// gap, the line is tidied.
pub open spec fn replaced<Id>(line: Seq<BlockView<Id>>, gap: GapView, id: Id, size: nat) -> Seq<
    BlockView<Id>,
> {
    match gap {
        Some((index, gap_size)) => if gap_size > size {
            tidy(substituted(line, gap, id, size))
        } else {
            substituted(line, gap, id, size)
        },
        None => substituted(line, gap, id, size),
    }
}

/// The gap that `placed` fills on the line, as a caller would say it.
pub open spec fn fitting_gap<Id>(line: Seq<BlockView<Id>>, size: nat) -> GapView {
    match first_fit(line, size) {
        Some(index) => Some((index, line[index].extent())),
        None => None,
    }
}

/// Whether a block of extent `size` can be put on the line without the
/// span outgrowing `limit`: a gap holds it, or the line has room at its end.
pub open spec fn can_place<Id>(line: Seq<BlockView<Id>>, size: nat, limit: nat) -> bool {
    first_fit(line, size) is Some || span(line) + size <= limit
}

/// The line with the first block of `id` turned into a gap of the same
/// extent; the line itself where `id` occupies nothing.
pub open spec fn vacated<Id>(line: Seq<BlockView<Id>>, id: Id) -> Seq<BlockView<Id>> {
    match position(line, id) {
        Some(index) => line.update(index, BlockView::Gap(line[index].extent())),
        None => line,
    }
}

/// The line `merged` with one more block at its end, which joins the last
/// block where both are gaps.
pub open spec fn absorb<Id>(merged: Seq<BlockView<Id>>, block: BlockView<Id>) -> Seq<
    BlockView<Id>,
> {
    if block is Gap && merged.len() > 0 && merged.last() is Gap {
        merged.drop_last().push(BlockView::Gap(merged.last().extent() + block.extent()))
    } else {
        merged.push(block)
    }
}

/// The line with every run of consecutive gaps merged into one gap.
pub open spec fn coalesced<Id>(line: Seq<BlockView<Id>>) -> Seq<BlockView<Id>>
    decreases line.len(),
{
    if line.len() == 0 {
        line
    } else {
        absorb(coalesced(line.drop_last()), line.last())
    }
}

/// The line without its last block, where that is a gap.
pub open spec fn trimmed<Id>(line: Seq<BlockView<Id>>) -> Seq<BlockView<Id>> {
    if line.len() > 0 && line.last() is Gap {
        line.drop_last()
    } else {
        line
    }
}

/// The line with its runs of gaps merged and no gap left at its end.
pub open spec fn tidy<Id>(line: Seq<BlockView<Id>>) -> Seq<BlockView<Id>> {
    trimmed(coalesced(line))
}

/// Whether the blocks of index `index` and `index + 1` are both gaps.
pub open spec fn gaps_meet<Id>(line: Seq<BlockView<Id>>, index: int) -> bool {
    line[index] is Gap && line[index + 1] is Gap
}

/// Whether no two gaps are neighbours.
pub open spec fn no_adjacent_gaps<Id>(line: Seq<BlockView<Id>>) -> bool {
    forall|i: int| 0 <= i && i + 1 < line.len() ==> !#[trigger] gaps_meet(line, i)
}

/// Whether the line neither holds two neighbouring gaps nor ends in a gap.
pub open spec fn is_tidy<Id>(line: Seq<BlockView<Id>>) -> bool {
    &&& no_adjacent_gaps(line)
    &&& line.len() > 0 ==> !(line.last() is Gap)
}

/// The occupied blocks of the line in their order, each with the offset at
/// which it starts.
pub open spec fn placements<Id>(line: Seq<BlockView<Id>>) -> Seq<Placement<Id>>
    decreases line.len(),
{
    if line.len() == 0 {
        Seq::empty()
    } else {
        let before = placements(line.drop_last());
        match line.last() {
            BlockView::Gap(_) => before,
            BlockView::Full(id, size) => before.push(
                Placement { id, offset: span(line.drop_last()), size },
            ),
        }
    }
}

/// The placements moved along the line by `distance`.
pub open spec fn shifted<Id>(places: Seq<Placement<Id>>, distance: nat) -> Seq<Placement<Id>> {
    Seq::new(
        places.len(),
        |i: int|
            Placement {
                id: places[i].id,
                offset: places[i].offset + distance,
                size: places[i].size,
            },
    )
}

/// How many occupied blocks stand before the block of index `index`.
pub open spec fn rank<Id>(line: Seq<BlockView<Id>>, index: int) -> int {
    placements(line.take(index)).len() as int
}

} // verus!
