//! The scheduler of the layout: once per tick it hides the messages that
//! have expired, which frees their space on the line, and shows the hidden
//! messages that have not, each at the offset that the line gives it. A
//! message that stays visible is left where it is.

use crate::block::Blocks;
use crate::layout_laws::{lemma_settled_slot_is_left_alone, lemma_tick_keeps_placements};
use crate::line::{can_place, landing, placed, placements, tidy, vacated, BlockView, Placement};
use crate::identity::obeys_identity;
use crate::summable::Summable;
use vstd::prelude::*;

verus! {

/// What the scheduler knows of a message: the time until which it stays.
#[derive(Debug, Clone, Copy, PartialEq, Eq)]
pub struct Message {
    pub expiration: u64,
}

impl Message {
    /// A message that stays until `expiration`.
    pub fn new(expiration: u64) -> (message: Self)
        ensures
            message.expiration == expiration,
    {
        Self { expiration }
    }

    /// Whether the message has expired at `now`: its time lies strictly in
    /// the past.
    pub fn is_expired(&self, now: u64) -> (expired: bool)
        ensures
            expired == (self.expiration < now),
    {
        self.expiration < now
    }
}

/// A slot as the renderer reports it at a tick: its identifier, the extent
/// it measures along the line, its message, and whether it is visible.
#[derive(Debug)]
pub struct Slot<Id, S> {
    pub id: Id,
    pub size: S,
    pub message: Message,
    pub visible: bool,
}

/// A slot as contracts see it, with its extent as a natural number.
pub struct SlotView<Id> {
    pub id: Id,
    pub size: nat,
    pub expiration: u64,
    pub visible: bool,
}

impl<Id, S: Summable> View for Slot<Id, S> {
    type V = SlotView<Id>;

    open spec fn view(&self) -> SlotView<Id> {
        SlotView {
            id: self.id,
            size: self.size.value(),
            expiration: self.message.expiration,
            visible: self.visible,
        }
    }
}

/// The views of the slots of a vector, in their order.
pub open spec fn slot_views<Id, S: Summable>(slots: Seq<Slot<Id, S>>) -> Seq<SlotView<Id>> {
    Seq::new(slots.len(), |i: int| slots[i]@)
}

/// The change of state that the scheduler decides for a slot.
#[derive(Debug, PartialEq, Eq)]
pub enum Transition<S> {
    /// The hidden slot becomes visible, at `offset` along the line.
    Show { offset: S },
    /// The visible slot becomes hidden.
    Hide,
}

impl<S: Copy> Clone for Transition<S> {
    fn clone(&self) -> (copy: Self)
        ensures
            copy == *self,
    {
        *self
    }
}

impl<S: Copy> Copy for Transition<S> {

}

/// A transition as contracts see it, with the offset as a natural number.
pub enum TransitionView {
    Show { offset: nat },
    Hide,
}

impl<S: Summable> View for Transition<S> {
    type V = TransitionView;

    open spec fn view(&self) -> TransitionView {
        match *self {
            Transition::Show { offset } => TransitionView::Show { offset: offset.value() },
            Transition::Hide => TransitionView::Hide,
        }
    }
}

/// The view of a transition that may be none.
pub open spec fn decision_view<S: Summable>(decision: Option<Transition<S>>) -> Option<
    TransitionView,
> {
    match decision {
        Some(transition) => Some(transition@),
        None => None,
    }
}

/// The views of the decisions of a vector, in their order.
pub open spec fn decision_views<S: Summable>(decisions: Seq<Option<Transition<S>>>) -> Seq<
    Option<TransitionView>,
> {
    Seq::new(decisions.len(), |i: int| decision_view(decisions[i]))
}

impl<Id> SlotView<Id> {
    /// Whether the slot is visible at `now` though its message has expired.
    pub open spec fn is_due_to_hide(self, now: u64) -> bool {
        self.visible && self.expiration < now
    }

    /// Whether the slot is hidden at `now` though its message has not
    /// expired.
    pub open spec fn is_due_to_show(self, now: u64) -> bool {
        !self.visible && self.expiration >= now
    }
}

/// What a tick at `now` makes of the line and of one slot. A visible slot
/// whose message has expired is hidden and gives its block back. A hidden
/// slot whose message has not expired is shown where the line places it;
/// it stays hidden where the line cannot grow by its extent within `limit`.
/// Every other slot, and with it the line, is left alone.
pub open spec fn slot_step<Id>(
    line: Seq<BlockView<Id>>,
    slot: SlotView<Id>,
    now: u64,
    limit: nat,
) -> (Seq<BlockView<Id>>, Option<TransitionView>) {
    if slot.is_due_to_hide(now) {
        (tidy(vacated(line, slot.id)), Some(TransitionView::Hide))
    } else if slot.is_due_to_show(now) && can_place(line, slot.size, limit) {
        (
            placed(line, slot.id, slot.size),
            Some(TransitionView::Show { offset: landing(line, slot.size) }),
        )
    } else {
        (line, None)
    }
}

/// What a tick at `now` makes of the line and of the slots, taken in their
/// order: the line after the tick, and the decision for each slot.
pub open spec fn laid_out<Id>(
    line: Seq<BlockView<Id>>,
    slots: Seq<SlotView<Id>>,
    now: u64,
    limit: nat,
) -> (Seq<BlockView<Id>>, Seq<Option<TransitionView>>)
    decreases slots.len(),
{
    if slots.len() == 0 {
        (line, Seq::empty())
    } else {
        let (before, decided) = laid_out(line, slots.drop_last(), now, limit);
        let (after, decision) = slot_step(before, slots.last(), now, limit);
        (after, decided.push(decision))
    }
}

/// Decides what a tick at `now` does to one slot, and gives or takes its
/// block on the line accordingly.
pub fn layout_message<Id: PartialEq, S: Summable>(
    line_sizes: &mut Blocks<Id, S>,
    slot: Slot<Id, S>,
    now: u64,
) -> (decision: Option<Transition<S>>)
    requires
        old(line_sizes).well_formed(),
        obeys_identity::<Id>(),
    ensures
        final(line_sizes).well_formed(),
        (final(line_sizes)@, decision_view(decision)) == slot_step(
            old(line_sizes)@,
            slot@,
            now,
            S::limit(),
        ),
{
    let is_expired = slot.message.is_expired(now);
    let is_visible = slot.visible;
    if is_visible == is_expired {
        if !is_expired {
            match line_sizes.try_insert_size(slot.id, slot.size) {
                Some(offset) => Some(Transition::Show { offset }),
                None => None,
            }
        } else {
            line_sizes.remove(slot.id);
            Some(Transition::Hide)
        }
    } else {
        None
    }
}

/// Runs one tick at `now` over the slots, in their order: hides the
/// visible slots whose message has expired and shows the hidden slots whose
/// message has not. Returns the decision for each slot; `None` leaves the
/// slot as it is.
///
/// A slot that is visible and whose message has not expired gets no
/// decision, and no block moves: every block that was on the line is still
/// there, at its offset, unless the tick hides a slot of its identifier.
pub fn layout_messages<Id: PartialEq, S: Summable>(
    messages: Vec<Slot<Id, S>>,
    line_sizes: &mut Blocks<Id, S>,
    now: u64,
) -> (decisions: Vec<Option<Transition<S>>>)
    requires
        old(line_sizes).well_formed(),
        obeys_identity::<Id>(),
    ensures
        final(line_sizes).well_formed(),
        decisions@.len() == messages@.len(),
        (final(line_sizes)@, decision_views(decisions@)) == laid_out(
            old(line_sizes)@,
            slot_views(messages@),
            now,
            S::limit(),
        ),
        forall|i: int|
            0 <= i < messages@.len() && (#[trigger] messages@[i]).visible
                && messages@[i].message.expiration >= now ==> decisions@[i] is None,
        forall|place: Placement<Id>|
            #![trigger placements(final(line_sizes)@).contains(place)]
            placements(old(line_sizes)@).contains(place) && (forall|i: int|
                0 <= i < messages@.len() && (#[trigger] messages@[i]).id == place.id
                    ==> !messages@[i]@.is_due_to_hide(now)) ==> placements(
                final(line_sizes)@,
            ).contains(place),
{
    let mut decisions: Vec<Option<Transition<S>>> = Vec::new();
    let ghost all = slot_views(messages@);
    let ghost taken = messages@;
    proof {
        assert(all.take(0) =~= Seq::<SlotView<Id>>::empty());
        assert(decision_views(decisions@) =~= Seq::<Option<TransitionView>>::empty());
    }
    for slot in it: messages
        invariant
            it.seq() == taken,
            all == slot_views(taken),
            obeys_identity::<Id>(),
            line_sizes.well_formed(),
            decisions@.len() == it.index(),
            (line_sizes@, decision_views(decisions@)) == laid_out(
                old(line_sizes)@,
                all.take(it.index() as int),
                now,
                S::limit(),
            ),
    {
        let ghost decided = decision_views(decisions@);
        let decision = layout_message(line_sizes, slot, now);
        decisions.push(decision);
        proof {
            let next = all.take(it.index() + 1);
            assert(next.drop_last() =~= all.take(it.index() as int));
            assert(next.last() == slot@);
            assert(decision_views(decisions@) =~= decided.push(decision_view(decision)));
        }
    }
    proof {
        assert(all.take(all.len() as int) =~= all);
        assert forall|i: int|
            0 <= i < taken.len() && (#[trigger] taken[i]).visible && taken[i].message.expiration
                >= now implies decisions@[i] is None by {
            lemma_settled_slot_is_left_alone(old(line_sizes)@, all, now, S::limit(), i);
            assert(decision_views(decisions@)[i] == decision_view(decisions@[i]));
        }
        assert forall|place: Placement<Id>|
            placements(old(line_sizes)@).contains(place) && (forall|i: int|
                0 <= i < taken.len() && (#[trigger] taken[i]).id == place.id
                    ==> !taken[i]@.is_due_to_hide(now)) implies #[trigger] placements(
            line_sizes@,
        ).contains(place) by {
            assert forall|i: int| 0 <= i < all.len() && (#[trigger] all[i]).id == place.id
                implies !all[i].is_due_to_hide(now) by {
                assert(all[i] == taken[i]@);
            }
            lemma_tick_keeps_placements(old(line_sizes)@, all, now, S::limit(), place);
        }
    }
    decisions
}

} // verus!
