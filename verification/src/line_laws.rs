//! What holds of the lines of blocks that the allocator's operations make.

use crate::line::{
    absorb, coalesced, first_fit, first_where, fitting_gap, gaps_meet, is_tidy, landing,
    landing_index, no_adjacent_gaps, offset_at, placed, placements, position, rank, replaced,
    shifted, span, span_substituted, substituted, tidy, trimmed, vacated, BlockView, GapView,
    Placement,
};
use vstd::prelude::*;

verus! {

/// `first_where` gives the least index of which the predicate holds.
pub proof fn lemma_first_where<Id>(line: Seq<BlockView<Id>>, wanted: spec_fn(BlockView<Id>) -> bool)
    ensures
        match first_where(line, wanted) {
            Some(index) => {
                &&& 0 <= index < line.len()
                &&& wanted(line[index])
                &&& forall|j: int| 0 <= j < index ==> !wanted(#[trigger] line[j])
            },
            None => forall|j: int| 0 <= j < line.len() ==> !wanted(#[trigger] line[j]),
        },
    decreases line.len(),
{
    if line.len() > 0 {
        let front = line.drop_last();
        lemma_first_where(front, wanted);
        assert(forall|j: int| 0 <= j < front.len() ==> front[j] == line[j]);
    }
}

/// An index of which the predicate holds, and before which it holds of none,
/// is the one that `first_where` gives.
pub proof fn lemma_first_where_found<Id>(
    line: Seq<BlockView<Id>>,
    wanted: spec_fn(BlockView<Id>) -> bool,
    index: int,
)
    requires
        0 <= index < line.len(),
        wanted(line[index]),
        forall|j: int| 0 <= j < index ==> !wanted(#[trigger] line[j]),
    ensures
        first_where(line, wanted) == Some(index),
{
    lemma_first_where(line, wanted);
}

/// The first fitting gap is a gap that holds `size`, and no gap before it does.
pub proof fn lemma_first_fit<Id>(line: Seq<BlockView<Id>>, size: nat)
    ensures
        match first_fit(line, size) {
            Some(index) => {
                &&& 0 <= index < line.len()
                &&& line[index].admits(size)
                &&& forall|j: int| 0 <= j < index ==> !(#[trigger] line[j]).admits(size)
            },
            None => forall|j: int| 0 <= j < line.len() ==> !(#[trigger] line[j]).admits(size),
        },
{
    lemma_first_where(line, |block: BlockView<Id>| block.admits(size));
}

/// The position of an identifier is the first block that it occupies.
pub proof fn lemma_position<Id>(line: Seq<BlockView<Id>>, id: Id)
    ensures
        match position(line, id) {
            Some(index) => {
                &&& 0 <= index < line.len()
                &&& line[index].owned_by(id)
                &&& forall|j: int| 0 <= j < index ==> !(#[trigger] line[j]).owned_by(id)
            },
            None => forall|j: int| 0 <= j < line.len() ==> !(#[trigger] line[j]).owned_by(id),
        },
{
    lemma_first_where(line, |block: BlockView<Id>| block.owned_by(id));
}

/// A line with one more block spans the extent of that block more.
pub proof fn lemma_span_push<Id>(line: Seq<BlockView<Id>>, block: BlockView<Id>)
    ensures
        span(line.push(block)) == span(line) + block.extent(),
{
    assert(line.push(block).drop_last() =~= line);
}

/// Two lines laid end to end span the sum of their spans.
pub proof fn lemma_span_concat<Id>(left: Seq<BlockView<Id>>, right: Seq<BlockView<Id>>)
    ensures
        span(left + right) == span(left) + span(right),
    decreases right.len(),
{
    if right.len() == 0 {
        assert(left + right =~= left);
    } else {
        lemma_span_concat(left, right.drop_last());
        assert((left + right).drop_last() =~= left + right.drop_last());
    }
}

/// The offset of a block and its extent give the offset of the next.
pub proof fn lemma_offset_step<Id>(line: Seq<BlockView<Id>>, index: int)
    requires
        0 <= index < line.len(),
    ensures
        offset_at(line, index + 1) == offset_at(line, index) + line[index].extent(),
{
    assert(line.take(index + 1).drop_last() =~= line.take(index));
}

/// No block starts beyond the span of the line, nor ends beyond it.
pub proof fn lemma_offset_within_span<Id>(line: Seq<BlockView<Id>>, index: int)
    requires
        0 <= index <= line.len(),
    ensures
        offset_at(line, index) <= span(line),
        index < line.len() ==> offset_at(line, index) + line[index].extent() <= span(line),
{
    assert(line =~= line.take(index) + line.skip(index));
    lemma_span_concat(line.take(index), line.skip(index));
    if index < line.len() {
        lemma_offset_step(line, index);
        assert(line =~= line.take(index + 1) + line.skip(index + 1));
        lemma_span_concat(line.take(index + 1), line.skip(index + 1));
    }
}

/// A line with one more block has the placements it had, and one more
/// where the block is occupied.
pub proof fn lemma_placements_push<Id>(line: Seq<BlockView<Id>>, block: BlockView<Id>)
    ensures
        placements(line.push(block)) == match block {
            BlockView::Gap(_) => placements(line),
            BlockView::Full(id, size) => placements(line).push(
                Placement { id, offset: span(line), size },
            ),
        },
{
    assert(line.push(block).drop_last() =~= line);
    assert(line.push(block).last() == block);
}

/// A block absorbed at the end of a line adds its extent to the span.
pub proof fn lemma_absorb_span<Id>(merged: Seq<BlockView<Id>>, block: BlockView<Id>)
    ensures
        span(absorb(merged, block)) == span(merged) + block.extent(),
{
    lemma_span_push(merged, block);
    if block is Gap && merged.len() > 0 && merged.last() is Gap {
        let front = merged.drop_last();
        let run = BlockView::<Id>::Gap(merged.last().extent() + block.extent());
        lemma_span_push(front, run);
    }
}

/// A block absorbed at the end of a line leaves the placements what they
/// would be with the block simply appended.
pub proof fn lemma_absorb_placements<Id>(merged: Seq<BlockView<Id>>, block: BlockView<Id>)
    ensures
        placements(absorb(merged, block)) == placements(merged.push(block)),
{
    if block is Gap && merged.len() > 0 && merged.last() is Gap {
        let front = merged.drop_last();
        let run = BlockView::<Id>::Gap(merged.last().extent() + block.extent());
        lemma_placements_push(front, run);
        lemma_placements_push(merged, block);
    }
}

/// A block absorbed at the end of a line makes no two gaps neighbours.
pub proof fn lemma_absorb_merged<Id>(merged: Seq<BlockView<Id>>, block: BlockView<Id>)
    requires
        no_adjacent_gaps(merged),
    ensures
        no_adjacent_gaps(absorb(merged, block)),
        absorb(merged, block).len() > 0,
        absorb(merged, block).len() <= merged.len() + 1,
        absorb(merged, block).last() is Gap <==> block is Gap,
{
    let joined = absorb(merged, block);
    assert forall|i: int| 0 <= i && i + 1 < joined.len() implies !#[trigger] gaps_meet(
        joined,
        i,
    ) by {
        if i + 1 < merged.len() {
            assert(!gaps_meet(merged, i));
        }
    }
}

/// Merging the runs of gaps changes neither the span of the line nor where
/// its occupied blocks are, and leaves no two gaps as neighbours.
pub proof fn lemma_coalesced<Id>(line: Seq<BlockView<Id>>)
    ensures
        span(coalesced(line)) == span(line),
        placements(coalesced(line)) == placements(line),
        no_adjacent_gaps(coalesced(line)),
        coalesced(line).len() <= line.len(),
        line.len() > 0 ==> coalesced(line).len() > 0 && (coalesced(line).last() is Gap
            <==> line.last() is Gap),
    decreases line.len(),
{
    if line.len() > 0 {
        let front = line.drop_last();
        lemma_coalesced(front);
        lemma_absorb_span(coalesced(front), line.last());
        lemma_absorb_placements(coalesced(front), line.last());
        lemma_absorb_merged(coalesced(front), line.last());
        lemma_placements_push(coalesced(front), line.last());
    }
}

/// A tidied line is tidy, spans no more than before, and its occupied blocks
/// are where they were.
pub proof fn lemma_tidy<Id>(line: Seq<BlockView<Id>>)
    ensures
        is_tidy(tidy(line)),
        span(tidy(line)) <= span(line),
        placements(tidy(line)) == placements(line),
        tidy(line).len() <= line.len(),
{
    lemma_coalesced(line);
    let merged = coalesced(line);
    let cut = trimmed(merged);
    if merged.len() > 0 && merged.last() is Gap {
        assert forall|i: int| 0 <= i && i + 1 < cut.len() implies !#[trigger] gaps_meet(cut, i) by {
            assert(!gaps_meet(merged, i));
        }
        if cut.len() > 0 {
            assert(!gaps_meet(merged, cut.len() - 1));
        }
    }
}

/// Tidying changes nothing of a line that is tidy.
pub proof fn lemma_tidy_of_tidy<Id>(line: Seq<BlockView<Id>>)
    requires
        is_tidy(line),
    ensures
        tidy(line) == line,
{
    lemma_coalesced_of_merged(line);
}

/// Merging changes nothing of a line in which no two gaps are neighbours.
pub proof fn lemma_coalesced_of_merged<Id>(line: Seq<BlockView<Id>>)
    requires
        no_adjacent_gaps(line),
    ensures
        coalesced(line) == line,
    decreases line.len(),
{
    if line.len() > 0 {
        let front = line.drop_last();
        assert forall|i: int| 0 <= i && i + 1 < front.len() implies !#[trigger] gaps_meet(
            front,
            i,
        ) by {
            assert(!gaps_meet(line, i));
        }
        lemma_coalesced_of_merged(front);
        if front.len() > 0 {
            assert(!gaps_meet(line, front.len() - 1));
        }
        assert(front.push(line.last()) =~= line);
    }
}

/// The placements of two lines laid end to end are those of the first,
/// followed by those of the second moved by the span of the first.
pub proof fn lemma_placements_concat<Id>(left: Seq<BlockView<Id>>, right: Seq<BlockView<Id>>)
    ensures
        placements(left + right) == placements(left) + shifted(placements(right), span(left)),
    decreases right.len(),
{
    if right.len() == 0 {
        assert(left + right =~= left);
        assert(placements(left) + shifted(placements(right), span(left)) =~= placements(left));
    } else {
        let front = right.drop_last();
        lemma_placements_concat(left, front);
        lemma_span_concat(left, front);
        assert((left + right).drop_last() =~= left + front);
        assert((left + right).last() == right.last());
        assert(placements(left + right) =~= placements(left) + shifted(
            placements(right),
            span(left),
        ));
    }
}

/// The placements of a line in three parts.
pub proof fn lemma_placements_three<Id>(
    left: Seq<BlockView<Id>>,
    middle: Seq<BlockView<Id>>,
    right: Seq<BlockView<Id>>,
)
    ensures
        placements(left + middle + right) == placements(left) + shifted(
            placements(middle),
            span(left),
        ) + shifted(placements(right), span(left) + span(middle)),
        span(left + middle + right) == span(left) + span(middle) + span(right),
{
    lemma_placements_concat(left, middle);
    lemma_placements_concat(left + middle, right);
    lemma_span_concat(left, middle);
    lemma_span_concat(left + middle, right);
}

/// The placements of a line of one block.
pub proof fn lemma_placements_single<Id>(block: BlockView<Id>)
    ensures
        span(seq![block]) == block.extent(),
        placements(seq![block]) == match block {
            BlockView::Gap(_) => Seq::<Placement<Id>>::empty(),
            BlockView::Full(id, size) => seq![Placement { id, offset: 0, size }],
        },
{
    let line = seq![block];
    assert(line.drop_last() =~= Seq::<BlockView<Id>>::empty());
    assert(span(line.drop_last()) == 0);
    assert(placements(line.drop_last()) =~= Seq::<Placement<Id>>::empty());
    match block {
        BlockView::Gap(_) => {},
        BlockView::Full(id, size) => {
            assert(placements(line) =~= seq![Placement { id, offset: 0, size }]);
        },
    }
}

/// An occupied block of the line is among its placements, at the rank of the
/// block and with the offset at which the block starts.
pub proof fn lemma_placement_of_block<Id>(line: Seq<BlockView<Id>>, index: int)
    requires
        0 <= index < line.len(),
        line[index] is Full,
    ensures
        0 <= rank(line, index) < placements(line).len(),
        placements(line)[rank(line, index)] == (Placement {
            id: line[index]->Full_0,
            offset: offset_at(line, index),
            size: line[index].extent(),
        }),
{
    let left = line.take(index);
    let middle = seq![line[index]];
    let right = line.skip(index + 1);
    assert(line =~= left + middle + right);
    lemma_placements_three(left, middle, right);
    lemma_placements_single(line[index]);
}

/// Giving `id` a block keeps every placement where it was and adds the one
/// of `id`, at the offset where the block lands. The span grows only where
/// the block goes to the end of the line.
pub proof fn lemma_placed<Id>(line: Seq<BlockView<Id>>, id: Id, size: nat)
    ensures
        span(placed(line, id, size)) == if first_fit(line, size) is Some {
            span(line)
        } else {
            span(line) + size
        },
        0 <= rank(line, landing_index(line, size)) <= placements(line).len(),
        placements(placed(line, id, size)) == placements(line).insert(
            rank(line, landing_index(line, size)),
            Placement { id, offset: landing(line, size), size },
        ),
{
    let place = Placement { id, offset: landing(line, size), size };
    let full = BlockView::Full(id, size);
    lemma_first_fit(line, size);
    match first_fit(line, size) {
        None => {
            assert(line.take(line.len() as int) =~= line);
            lemma_placements_push(line, full);
            lemma_span_push(line, full);
            assert(placements(line).push(place) =~= placements(line).insert(
                placements(line).len() as int,
                place,
            ));
        },
        Some(index) => {
            let left = line.take(index);
            let right = line.skip(index + 1);
            let gap = line[index];
            assert(line =~= left + seq![gap] + right);
            lemma_placements_three(left, seq![gap], right);
            lemma_placements_single(gap);
            lemma_placements_single(full);
            let middle = if gap.extent() > size {
                seq![full, BlockView::Gap((gap.extent() - size) as nat)]
            } else {
                seq![full]
            };
            if gap.extent() > size {
                let rest = BlockView::<Id>::Gap((gap.extent() - size) as nat);
                assert(middle =~= seq![full].push(rest));
                lemma_placements_push(seq![full], rest);
                lemma_span_push(seq![full], rest);
            } else {
                assert(line.update(index, full) =~= left + middle + right);
            }
            assert(placed(line, id, size) == left + middle + right);
            lemma_placements_three(left, middle, right);
            assert(placements(middle) =~= seq![Placement { id, offset: 0, size }]);
            assert(span(middle) == gap.extent());
            assert(placements(left + middle + right) =~= placements(
                left + seq![gap] + right,
            ).insert(placements(left).len() as int, place));
        },
    }
}

/// Giving `id` a block on a tidy line leaves the line tidy.
pub proof fn lemma_placed_tidy<Id>(line: Seq<BlockView<Id>>, id: Id, size: nat)
    requires
        is_tidy(line),
    ensures
        is_tidy(placed(line, id, size)),
{
    let after = placed(line, id, size);
    lemma_first_fit(line, size);
    match first_fit(line, size) {
        None => {
            assert forall|i: int| 0 <= i && i + 1 < after.len() implies !#[trigger] gaps_meet(
                after,
                i,
            ) by {
                if i + 1 < line.len() {
                    assert(!gaps_meet(line, i));
                }
            }
        },
        Some(index) => {
            assert(!gaps_meet(line, index));
            if line[index].extent() > size {
                assert forall|i: int| 0 <= i && i + 1 < after.len() implies !#[trigger] gaps_meet(
                    after,
                    i,
                ) by {
                    if i + 1 < index {
                        assert(!gaps_meet(line, i));
                    } else if i > index + 1 {
                        assert(!gaps_meet(line, i - 1));
                    }
                }
            } else {
                assert forall|i: int| 0 <= i && i + 1 < after.len() implies !#[trigger] gaps_meet(
                    after,
                    i,
                ) by {
                    if i != index && i + 1 != index {
                        assert(!gaps_meet(line, i));
                    }
                }
            }
        },
    }
}

/// Taking the block of `id` away keeps the span, keeps every other placement
/// where it was, and removes the placement of that block. Where `id`
/// occupies nothing the line stays as it is.
pub proof fn lemma_vacated<Id>(line: Seq<BlockView<Id>>, id: Id)
    ensures
        span(vacated(line, id)) == span(line),
        match position(line, id) {
            Some(index) => {
                &&& 0 <= rank(line, index) < placements(line).len()
                &&& placements(line)[rank(line, index)] == (Placement {
                    id,
                    offset: offset_at(line, index),
                    size: line[index].extent(),
                })
                &&& placements(vacated(line, id)) == placements(line).remove(rank(line, index))
            },
            None => vacated(line, id) == line,
        },
{
    lemma_position(line, id);
    match position(line, id) {
        None => {},
        Some(index) => {
            let left = line.take(index);
            let right = line.skip(index + 1);
            let full = line[index];
            let gap = BlockView::<Id>::Gap(full.extent());
            assert(line =~= left + seq![full] + right);
            assert(line.update(index, gap) =~= left + seq![gap] + right);
            lemma_placements_three(left, seq![full], right);
            lemma_placements_three(left, seq![gap], right);
            lemma_placements_single(full);
            lemma_placements_single(gap);
            assert(placements(left + seq![gap] + right) =~= placements(
                left + seq![full] + right,
            ).remove(placements(left).len() as int));
        },
    }
}

/// The occupied blocks lie on the line in their order and do not overlap:
/// each ends before the next starts, and the last ends within the span.
pub proof fn lemma_placements_apart<Id>(line: Seq<BlockView<Id>>, first: int, second: int)
    requires
        0 <= first < second < placements(line).len(),
    ensures
        placements(line)[first].offset + placements(line)[first].size <= placements(
            line,
        )[second].offset,
        placements(line)[second].offset + placements(line)[second].size <= span(line),
    decreases line.len(),
{
    if line.len() > 0 {
        let front = line.drop_last();
        match line.last() {
            BlockView::Gap(_) => {
                lemma_placements_apart(front, first, second);
            },
            BlockView::Full(_, _) => {
                if second < placements(front).len() {
                    lemma_placements_apart(front, first, second);
                } else {
                    lemma_placement_within_span(front, first);
                }
            },
        }
    }
}

/// Every occupied block ends within the span of the line.
pub proof fn lemma_placement_within_span<Id>(line: Seq<BlockView<Id>>, index: int)
    requires
        0 <= index < placements(line).len(),
    ensures
        placements(line)[index].offset + placements(line)[index].size <= span(line),
    decreases line.len(),
{
    if line.len() > 0 {
        let front = line.drop_last();
        if index < placements(front).len() {
            lemma_placement_within_span(front, index);
        }
    }
}

/// A block put in place of another changes the span by the difference of
/// what the two cover.
pub proof fn lemma_span_substituted<Id>(line: Seq<BlockView<Id>>, gap: GapView, id: Id, size: nat)
    requires
        gap matches Some((index, _)) ==> 0 <= index < line.len(),
    ensures
        span(substituted(line, gap, id, size)) == span_substituted(line, gap, size),
{
    let full = BlockView::Full(id, size);
    match gap {
        None => {
            lemma_span_push(line, full);
        },
        Some((index, gap_size)) => {
            let left = line.take(index);
            let right = line.skip(index + 1);
            assert(line =~= left + seq![line[index]] + right);
            lemma_placements_three(left, seq![line[index]], right);
            lemma_placements_single(line[index]);
            lemma_placements_single(full);
            if gap_size > size {
                let rest = BlockView::<Id>::Gap((gap_size - size) as nat);
                let middle = seq![full, rest];
                assert(middle =~= seq![full].push(rest));
                lemma_span_push(seq![full], rest);
                lemma_placements_three(left, middle, right);
            } else {
                assert(line.update(index, full) =~= left + seq![full] + right);
                lemma_placements_three(left, seq![full], right);
            }
        },
    }
}

/// On a tidy line, putting a block into the first gap that holds it, as a
/// caller of the two steps does, is giving the identifier its block.
pub proof fn lemma_replaced_fitting_gap<Id>(line: Seq<BlockView<Id>>, id: Id, size: nat)
    requires
        is_tidy(line),
    ensures
        replaced(line, fitting_gap(line, size), id, size) == placed(line, id, size),
{
    lemma_first_fit(line, size);
    lemma_placed_tidy(line, id, size);
    lemma_tidy_of_tidy(placed(line, id, size));
}

} // verus!
