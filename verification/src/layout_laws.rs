//! What holds of every tick of the scheduler: a message that stays visible
//! stays where it is.

use crate::line_laws::{lemma_placed, lemma_tidy, lemma_vacated};
use crate::line::{landing_index, placements, position, rank, vacated, BlockView, Placement};
use crate::layout::{laid_out, slot_step, SlotView, TransitionView};
use vstd::prelude::*;

verus! {

/// One tick: the slots as the renderer reports them, and the time.
pub struct Tick<Id> {
    pub slots: Seq<SlotView<Id>>,
    pub now: u64,
}

/// The line after the ticks, run one after the other.
pub open spec fn after_ticks<Id>(line: Seq<BlockView<Id>>, ticks: Seq<Tick<Id>>, limit: nat) -> Seq<
    BlockView<Id>,
>
    decreases ticks.len(),
{
    if ticks.len() == 0 {
        line
    } else {
        laid_out(
            after_ticks(line, ticks.drop_last(), limit),
            ticks.last().slots,
            ticks.last().now,
            limit,
        ).0
    }
}

/// Every slot gets one decision.
pub proof fn lemma_laid_out_len<Id>(
    line: Seq<BlockView<Id>>,
    slots: Seq<SlotView<Id>>,
    now: u64,
    limit: nat,
)
    ensures
        laid_out(line, slots, now, limit).1.len() == slots.len(),
    decreases slots.len(),
{
    if slots.len() > 0 {
        lemma_laid_out_len(line, slots.drop_last(), now, limit);
    }
}

/// The decision for a slot is the one that its own step takes, on the line
/// as the slots before it have left it.
pub proof fn lemma_decision_of_slot<Id>(
    line: Seq<BlockView<Id>>,
    slots: Seq<SlotView<Id>>,
    now: u64,
    limit: nat,
    index: int,
)
    requires
        0 <= index < slots.len(),
    ensures
        laid_out(line, slots, now, limit).1.len() == slots.len(),
        laid_out(line, slots, now, limit).1[index] == slot_step(
            laid_out(line, slots.take(index), now, limit).0,
            slots[index],
            now,
            limit,
        ).1,
    decreases slots.len(),
{
    let front = slots.drop_last();
    lemma_laid_out_len(line, slots, now, limit);
    lemma_laid_out_len(line, front, now, limit);
    if index == slots.len() - 1 {
        assert(slots.take(index) =~= front);
    } else {
        lemma_decision_of_slot(line, front, now, limit, index);
        assert(front.take(index) =~= slots.take(index));
    }
}

/// A tick decides nothing for a slot that is visible and whose message has
/// not expired, nor for one that is hidden and whose message has expired.
pub proof fn lemma_settled_slot_is_left_alone<Id>(
    line: Seq<BlockView<Id>>,
    slots: Seq<SlotView<Id>>,
    now: u64,
    limit: nat,
    index: int,
)
    requires
        0 <= index < slots.len(),
        slots[index].visible == (slots[index].expiration >= now),
    ensures
        laid_out(line, slots, now, limit).1[index] is None,
{
    lemma_decision_of_slot(line, slots, now, limit, index);
}

/// A tick gives an offset only to a slot that was hidden and whose message
/// has not expired, and hides only a slot that was visible and whose
/// message has expired.
pub proof fn lemma_decision_follows_state<Id>(
    line: Seq<BlockView<Id>>,
    slots: Seq<SlotView<Id>>,
    now: u64,
    limit: nat,
    index: int,
)
    requires
        0 <= index < slots.len(),
    ensures
        laid_out(line, slots, now, limit).1[index] matches Some(TransitionView::Show { .. })
            ==> slots[index].is_due_to_show(now),
        laid_out(line, slots, now, limit).1[index] == Some(TransitionView::Hide)
            <==> slots[index].is_due_to_hide(now),
{
    lemma_decision_of_slot(line, slots, now, limit, index);
}

/// A slot that is shown has its block on the line, at the offset that the
/// decision names and with the extent of the slot.
pub proof fn lemma_shown_slot_is_placed<Id>(
    line: Seq<BlockView<Id>>,
    slot: SlotView<Id>,
    now: u64,
    limit: nat,
)
    requires
        slot_step(line, slot, now, limit).1 matches Some(TransitionView::Show { .. }),
    ensures
        placements(slot_step(line, slot, now, limit).0).contains(
            Placement {
                id: slot.id,
                offset: slot_step(line, slot, now, limit).1->Some_0->offset,
                size: slot.size,
            },
        ),
{
    lemma_placed(line, slot.id, slot.size);
    let at = rank(line, landing_index(line, slot.size));
    let after = placements(slot_step(line, slot, now, limit).0);
    assert(after[at] == Placement {
        id: slot.id,
        offset: slot_step(line, slot, now, limit).1->Some_0->offset,
        size: slot.size,
    });
}

/// The step of one slot keeps every block where it is, but the block that
/// the slot itself gives back.
pub proof fn lemma_step_keeps_placements<Id>(
    line: Seq<BlockView<Id>>,
    slot: SlotView<Id>,
    now: u64,
    limit: nat,
    place: Placement<Id>,
)
    requires
        placements(line).contains(place),
        slot.id == place.id ==> !slot.is_due_to_hide(now),
    ensures
        placements(slot_step(line, slot, now, limit).0).contains(place),
{
    let found = choose|i: int| 0 <= i < placements(line).len() && placements(line)[i] == place;
    let before = placements(line);
    if slot.is_due_to_hide(now) {
        lemma_vacated(line, slot.id);
        lemma_tidy(vacated(line, slot.id));
        match position(line, slot.id) {
            Some(index) => {
                let gone = rank(line, index);
                let after = before.remove(gone);
                if found < gone {
                    assert(after[found] == place);
                } else {
                    assert(after[found - 1] == place);
                }
            },
            None => {},
        }
    } else if slot_step(line, slot, now, limit).1 is Some {
        lemma_placed(line, slot.id, slot.size);
        let at = rank(line, landing_index(line, slot.size));
        let after = placements(slot_step(line, slot, now, limit).0);
        if found < at {
            assert(after[found] == place);
        } else {
            assert(after[found + 1] == place);
        }
    }
}

/// A tick keeps every block where it is, but those of the slots that it
/// hides: the block of a slot that stays visible keeps its offset and its
/// extent.
pub proof fn lemma_tick_keeps_placements<Id>(
    line: Seq<BlockView<Id>>,
    slots: Seq<SlotView<Id>>,
    now: u64,
    limit: nat,
    place: Placement<Id>,
)
    requires
        placements(line).contains(place),
        forall|i: int|
            0 <= i < slots.len() && (#[trigger] slots[i]).id == place.id
                ==> !slots[i].is_due_to_hide(now),
    ensures
        placements(laid_out(line, slots, now, limit).0).contains(place),
    decreases slots.len(),
{
    if slots.len() > 0 {
        let front = slots.drop_last();
        assert(forall|i: int| 0 <= i < front.len() ==> front[i] == slots[i]);
        lemma_tick_keeps_placements(line, front, now, limit, place);
        lemma_step_keeps_placements(
            laid_out(line, front, now, limit).0,
            slots.last(),
            now,
            limit,
            place,
        );
    }
}

/// Over any sequence of ticks, the block of an identifier that no tick
/// hides keeps its offset and its extent.
pub proof fn lemma_ticks_keep_placements<Id>(
    line: Seq<BlockView<Id>>,
    ticks: Seq<Tick<Id>>,
    limit: nat,
    place: Placement<Id>,
)
    requires
        placements(line).contains(place),
        forall|t: int, i: int|
            0 <= t < ticks.len() && 0 <= i < ticks[t].slots.len()
                && (#[trigger] ticks[t].slots[i]).id == place.id
                ==> !ticks[t].slots[i].is_due_to_hide(ticks[t].now),
    ensures
        placements(after_ticks(line, ticks, limit)).contains(place),
    decreases ticks.len(),
{
    if ticks.len() > 0 {
        let front = ticks.drop_last();
        let last = ticks.last();
        assert(forall|t: int| 0 <= t < front.len() ==> front[t] == ticks[t]);
        lemma_ticks_keep_placements(line, front, limit, place);
        assert(last == ticks[ticks.len() - 1]);
        lemma_tick_keeps_placements(
            after_ticks(line, front, limit),
            last.slots,
            last.now,
            limit,
            place,
        );
    }
}

} // verus!
