//! Keeps track of free and occupied space on a line.
//!
//! A [`Block`] is something that takes up [`Block::size`] of the line, or a
//! gap in it. [`Blocks`] is the line: identifiers are given space on it and
//! give it back, and a block that has been placed is never moved.

use crate::line_laws::{
    lemma_coalesced, lemma_first_fit, lemma_first_where_found, lemma_offset_step,
    lemma_offset_within_span, lemma_placed, lemma_placed_tidy, lemma_position, lemma_span_push,
    lemma_span_substituted, lemma_tidy, lemma_tidy_of_tidy, lemma_vacated,
};
use crate::line::{
    absorb, can_place, coalesced, first_fit, is_tidy, landing, landing_index,
    offset_at, placed, placements, position, rank, replaced, span, span_substituted, split_at,
    substituted, tidy, vacated, BlockView, GapView, Placement,
};
use crate::identity::obeys_identity;
use crate::summable::Summable;
use vstd::prelude::*;

verus! {

/// Something that takes up space `S` on the line, or a gap in it. Each
/// occupied block is identified by an `Id`.
#[derive(Debug)]
pub enum Block<Id, S> {
    /// A void of size `S` left by something that was removed.
    Gap(S),
    /// Something identified by `Id` that takes space `S`.
    Full(Id, S),
}

impl<Id: Copy, S: Copy> Clone for Block<Id, S> {
    fn clone(&self) -> (copy: Self)
        ensures
            copy == *self,
    {
        *self
    }
}

impl<Id: Copy, S: Copy> Copy for Block<Id, S> {

}

impl<Id, S: Summable> View for Block<Id, S> {
    type V = BlockView<Id>;

    open spec fn view(&self) -> BlockView<Id> {
        match *self {
            Block::Gap(size) => BlockView::Gap(size.value()),
            Block::Full(id, size) => BlockView::Full(id, size.value()),
        }
    }
}

impl<Id, S: Summable> Block<Id, S> {
    /// The space that the block takes.
    pub fn size(&self) -> (size: S)
        ensures
            size.value() == self@.extent(),
    {
        match self {
            Block::Full(_, size) => *size,
            Block::Gap(size) => *size,
        }
    }

    /// Whether the block is occupied by `id`.
    pub fn has_id(&self, id: &Id) -> (owned: bool) where Id: PartialEq
        requires
            obeys_identity::<Id>(),
        ensures
            owned == self@.owned_by(*id),
    {
        match self {
            Block::Full(self_id, _) => *self_id == *id,
            Block::Gap(_) => false,
        }
    }
}

/// A gap found on the line: where it is and how long it is.
pub struct Gap<S> {
    pub index: usize,
    pub gap_size: S,
}

/// What a caller's choice of gap says to the allocator: the index and the
/// extent of the gap, or `None` for the end of the line.
pub open spec fn gap_view<S: Summable>(gap: Option<&Gap<S>>) -> GapView {
    match gap {
        Some(gap) => Some((gap.index as int, gap.gap_size.value())),
        None => None,
    }
}

/// The views of the blocks of a vector, in their order.
pub open spec fn views<Id, S: Summable>(blocks: Seq<Block<Id, S>>) -> Seq<BlockView<Id>> {
    Seq::new(blocks.len(), |i: int| blocks[i]@)
}

/// Manages the allocation of space on a line measured in `S`; each
/// allocated block is identified by an `Id`.
#[derive(Debug)]
pub struct Blocks<Id, S>(Vec<Block<Id, S>>);

impl<Id, S: Summable> View for Blocks<Id, S> {
    type V = Seq<BlockView<Id>>;

    closed spec fn view(&self) -> Seq<BlockView<Id>> {
        views(self.0@)
    }
}

impl<Id, S: Summable> Default for Blocks<Id, S> {
    /// The empty line.
    fn default() -> (blocks: Self)
        ensures
            blocks@ == Seq::<BlockView<Id>>::empty(),
            blocks.well_formed(),
    {
        let blocks = Blocks(Vec::new());
        assert(blocks@ =~= Seq::<BlockView<Id>>::empty());
        blocks
    }
}

impl<Id, S: Summable> Blocks<Id, S> {
    /// Whether the type of the sizes can hold the span of the line.
    pub open spec fn within_limit(&self) -> bool {
        span(self@) <= S::limit()
    }

    /// The invariant of the line: its span can be measured, no two gaps are
    /// neighbours, and it does not end in a gap.
    pub open spec fn well_formed(&self) -> bool {
        &&& self.within_limit()
        &&& is_tidy(self@)
    }

    /// The first gap that holds `size`, if there is one.
    pub fn first_gap_of_size(&self, size: S) -> (found: Option<Gap<S>>)
        ensures
            match found {
                Some(gap) => {
                    &&& first_fit(self@, size.value()) == Some(gap.index as int)
                    &&& gap.gap_size.value() == self@[gap.index as int].extent()
                },
                None => first_fit(self@, size.value()) is None,
            },
    {
        let mut index: usize = 0;
        while index < self.0.len()
            invariant
                index <= self.0.len(),
                forall|j: int| 0 <= j < index ==> !(#[trigger] self@[j]).admits(size.value()),
            decreases self.0.len() - index,
        {
            match &self.0[index] {
                Block::Gap(gap) => {
                    if !gap.less_than(size) {
                        proof {
                            lemma_first_where_found(
                                self@,
                                |block: BlockView<Id>| block.admits(size.value()),
                                index as int,
                            );
                        }
                        return Some(Gap { index, gap_size: *gap });
                    }
                },
                Block::Full(..) => {},
            }
            index += 1;
        }
        proof {
            lemma_first_fit(self@, size.value());
        }
        None
    }

    /// The offset at which the block of index `end` starts.
    fn offset_before(&self, end: usize) -> (offset: S)
        requires
            self.within_limit(),
            end <= self@.len(),
        ensures
            offset.value() == offset_at(self@, end as int),
    {
        let mut offset = S::zero();
        let mut index: usize = 0;
        proof {
            assert(self@.take(0) =~= Seq::<BlockView<Id>>::empty());
        }
        while index < end
            invariant
                index <= end <= self@.len(),
                self@.len() == self.0.len(),
                self.within_limit(),
                offset.value() == offset_at(self@, index as int),
            decreases end - index,
        {
            proof {
                lemma_offset_step(self@, index as int);
                lemma_offset_within_span(self@, index as int + 1);
            }
            offset = offset.plus(self.0[index].size());
            index += 1;
        }
        offset
    }

    /// The index of the first block that `id` occupies, if there is one.
    fn index_of(&self, id: &Id) -> (found: Option<usize>) where Id: PartialEq
        requires
            obeys_identity::<Id>(),
        ensures
            match found {
                Some(index) => position(self@, *id) == Some(index as int),
                None => position(self@, *id) is None,
            },
    {
        let mut index: usize = 0;
        while index < self.0.len()
            invariant
                index <= self.0.len(),
                obeys_identity::<Id>(),
                forall|j: int| 0 <= j < index ==> !(#[trigger] self@[j]).owned_by(*id),
            decreases self.0.len() - index,
        {
            if self.0[index].has_id(id) {
                proof {
                    lemma_first_where_found(
                        self@,
                        |block: BlockView<Id>| block.owned_by(*id),
                        index as int,
                    );
                }
                return Some(index);
            }
            index += 1;
        }
        proof {
            lemma_position(self@, *id);
        }
        None
    }

    /// Puts a block of `id` of size `size` where `gap` says: in place of
    /// the block at the gap's index, or at the end of the line for `None`.
    /// Where the gap is larger than `size`, a gap for the remainder follows
    /// the new block, and the line is cleaned up.
    pub fn replace_gap(&mut self, gap: Option<&Gap<S>>, id: Id, size: S)
        requires
            gap matches Some(chosen) ==> chosen.index < old(self)@.len(),
            span_substituted(old(self)@, gap_view(gap), size.value()) <= S::limit(),
        ensures
            final(self)@ == replaced(old(self)@, gap_view(gap), id, size.value()),
            span(final(self)@) <= span_substituted(old(self)@, gap_view(gap), size.value()),
            final(self).within_limit(),
    {
        proof {
            lemma_span_substituted(old(self)@, gap_view(gap), id, size.value());
            lemma_tidy(substituted(old(self)@, gap_view(gap), id, size.value()));
        }
        let to_insert = Block::Full(id, size);
        match gap {
            Some(chosen) => {
                if size.less_than(chosen.gap_size) {
                    let rest = Block::Gap(chosen.gap_size.minus(size));
                    assert(chosen.index < self.0.len());
                    self.0[chosen.index] = to_insert;
                    self.0.insert(chosen.index + 1, rest);
                    proof {
                        assert(self@ =~= split_at(
                            old(self)@,
                            chosen.index as int,
                            id,
                            size.value(),
                            (chosen.gap_size.value() - size.value()) as nat,
                        ));
                    }
                    self.cleanup();
                } else {
                    self.0[chosen.index] = to_insert;
                    proof {
                        assert(self@ =~= old(self)@.update(chosen.index as int, to_insert@));
                    }
                }
            },
            None => {
                self.0.push(to_insert);
                proof {
                    assert(self@ =~= old(self)@.push(to_insert@));
                }
            },
        }
    }

    /// Gives `id` a block of size `size` and returns the offset at which it
    /// starts: in the first gap that holds it, whose remainder stays a gap,
    /// or at the end of the line. No other block moves.
    pub fn insert_size(&mut self, id: Id, size: S) -> (offset: S)
        requires
            old(self).well_formed(),
            can_place(old(self)@, size.value(), S::limit()),
        ensures
            final(self).well_formed(),
            final(self)@ == placed(old(self)@, id, size.value()),
            span(final(self)@) == if first_fit(old(self)@, size.value()) is Some {
                span(old(self)@)
            } else {
                span(old(self)@) + size.value()
            },
            offset.value() == landing(old(self)@, size.value()),
            offset.value() == offset_at(final(self)@, landing_index(old(self)@, size.value())),
            final(self)@[landing_index(old(self)@, size.value())] == BlockView::Full(
                id,
                size.value(),
            ),
            placements(final(self)@) == placements(old(self)@).insert(
                rank(old(self)@, landing_index(old(self)@, size.value())),
                Placement { id, offset: offset.value(), size: size.value() },
            ),
    {
        let gap_range = self.first_gap_of_size(size);
        let old_len = self.0.len();
        let start = match &gap_range {
            Some(gap) => gap.index,
            None => old_len,
        };
        proof {
            let line = self@;
            lemma_first_fit(line, size.value());
            lemma_placed(line, id, size.value());
            lemma_placed_tidy(line, id, size.value());
            lemma_tidy_of_tidy(placed(line, id, size.value()));
            let after = placed(line, id, size.value());
            let index = landing_index(line, size.value());
            assert(after.take(index) =~= line.take(index));
        }
        let offset = self.offset_before(start);
        self.replace_gap(gap_range.as_ref(), id, size);
        offset
    }

    /// Gives `id` a block as [`insert_size`](Blocks::insert_size) does, where
    /// the line has a gap for it or room at its end; returns `None` and
    /// leaves the line as it is where the span would outgrow what `S` holds.
    pub fn try_insert_size(&mut self, id: Id, size: S) -> (offset: Option<S>)
        requires
            old(self).well_formed(),
        ensures
            final(self).well_formed(),
            offset is Some <==> can_place(old(self)@, size.value(), S::limit()),
            offset matches Some(start) ==> {
                &&& final(self)@ == placed(old(self)@, id, size.value())
                &&& span(final(self)@) == if first_fit(old(self)@, size.value()) is Some {
                    span(old(self)@)
                } else {
                    span(old(self)@) + size.value()
                }
                &&& start.value() == landing(old(self)@, size.value())
                &&& placements(final(self)@) == placements(old(self)@).insert(
                    rank(old(self)@, landing_index(old(self)@, size.value())),
                    Placement { id, offset: start.value(), size: size.value() },
                )
            },
            offset is None ==> final(self)@ == old(self)@,
    {
        if self.first_gap_of_size(size).is_none() {
            proof {
                assert(self@.take(self@.len() as int) =~= self@);
            }
            let total = self.offset_before(self.0.len());
            if total.checked_plus(size).is_none() {
                return None;
            }
        }
        Some(self.insert_size(id, size))
    }

    /// Takes the block of `id` off the line: it becomes a gap, which joins
    /// the gaps beside it, and a gap at the end of the line is dropped.
    /// Nothing happens where `id` occupies no block. No other block moves.
    pub fn remove(&mut self, id: Id) where Id: PartialEq
        requires
            old(self).well_formed(),
            obeys_identity::<Id>(),
        ensures
            final(self).well_formed(),
            final(self)@ == tidy(vacated(old(self)@, id)),
            span(final(self)@) <= span(old(self)@),
            position(old(self)@, id) is None ==> final(self)@ == old(self)@,
            placements(final(self)@) == match position(old(self)@, id) {
                Some(index) => placements(old(self)@).remove(rank(old(self)@, index)),
                None => placements(old(self)@),
            },
    {
        proof {
            lemma_vacated(self@, id);
            lemma_position(self@, id);
            lemma_tidy(vacated(self@, id));
            lemma_tidy_of_tidy(self@);
        }
        match self.index_of(&id) {
            Some(index) => {
                let size = self.0[index].size();
                self.0[index] = Block::Gap(size);
                proof {
                    assert(self@ =~= vacated(old(self)@, id));
                }
            },
            None => {},
        }
        self.cleanup();
    }

    /// Merges each run of neighbouring gaps into one gap and drops a gap at
    /// the end of the line.
    pub fn cleanup(&mut self)
        requires
            old(self).within_limit(),
        ensures
            final(self)@ == tidy(old(self)@),
            span(final(self)@) <= span(old(self)@),
            final(self).well_formed(),
    {
        let mut blocks: Vec<Block<Id, S>> = Vec::new();
        std::mem::swap(&mut blocks, &mut self.0);
        let ghost before = views(blocks@);
        let ghost taken = blocks@;
        let mut merged: Vec<Block<Id, S>> = Vec::new();
        proof {
            assert(before.take(0) =~= Seq::<BlockView<Id>>::empty());
            assert(views(merged@) =~= coalesced(before.take(0)));
        }
        for block in it: blocks
            invariant
                it.seq() == taken,
                before == views(taken),
                span(before) <= S::limit(),
                views(merged@) == coalesced(before.take(it.index() as int)),
        {
            let ghost done = before.take(it.index() as int);
            let ghost next = before.take(it.index() + 1);
            proof {
                assert(next.drop_last() =~= done);
                assert(next.last() == block@);
                lemma_coalesced(done);
                lemma_coalesced(next);
                lemma_offset_within_span(before, it.index() + 1);
            }
            match block {
                Block::Gap(gap) => {
                    let count = merged.len();
                    let run: Option<S> = if count > 0 {
                        match &merged[count - 1] {
                            Block::Gap(run) => Some(*run),
                            Block::Full(..) => None,
                        }
                    } else {
                        None
                    };
                    match run {
                        Some(run) => {
                            proof {
                                lemma_span_push(
                                    views(merged@).drop_last(),
                                    BlockView::Gap(run.value() + gap.value()),
                                );
                            }
                            merged[count - 1] = Block::Gap(run.plus(gap));
                        },
                        None => {
                            merged.push(Block::Gap(gap));
                        },
                    }
                },
                Block::Full(id, size) => {
                    merged.push(Block::Full(id, size));
                },
            }
            proof {
                assert(views(merged@) =~= absorb(coalesced(done), block@));
            }
        }
        proof {
            assert(before.take(before.len() as int) =~= before);
            lemma_tidy(before);
        }
        let count = merged.len();
        let ends_in_gap = if count > 0 {
            match &merged[count - 1] {
                Block::Gap(_) => true,
                Block::Full(..) => false,
            }
        } else {
            false
        };
        if ends_in_gap {
            merged.pop();
            proof {
                assert(views(merged@) =~= coalesced(before).drop_last());
            }
        }
        self.0 = merged;
    }
}

} // verus!
