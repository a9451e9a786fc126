use bevy_debug_text_overlay::block::Blocks;
use bevy_debug_text_overlay::layout::{layout_message, layout_messages, Message, Slot, Transition};
use bevy_debug_text_overlay::summable::Summable;

fn slot(id: u8, size: u32, expiration: u64, visible: bool) -> Slot<u8, u32> {
    Slot { id, size, message: Message::new(expiration), visible }
}

#[test]
fn message_expires_strictly_after_its_time() {
    let message = Message::new(100);
    assert_eq!(100, message.expiration);
    assert!(!message.is_expired(99));
    assert!(!message.is_expired(100));
    assert!(message.is_expired(101));
}

#[test]
fn hidden_fresh_slots_are_shown_in_order() {
    let mut line: Blocks<u8, u32> = Blocks::default();
    let decisions = layout_messages(
        vec![slot(1, 3, 10, false), slot(2, 2, 10, false), slot(3, 8, 10, false)],
        &mut line,
        5,
    );
    assert_eq!(
        vec![
            Some(Transition::Show { offset: 0 }),
            Some(Transition::Show { offset: 3 }),
            Some(Transition::Show { offset: 5 }),
        ],
        decisions
    );
}

#[test]
fn visible_slot_is_not_moved() {
    let mut line: Blocks<u8, u32> = Blocks::default();
    layout_messages(
        vec![slot(1, 3, 10, false), slot(2, 2, 6, false), slot(3, 8, 10, false)],
        &mut line,
        5,
    );
    let decisions = layout_messages(
        vec![slot(1, 3, 10, true), slot(2, 2, 6, true), slot(3, 8, 10, true), slot(4, 1, 20, false)],
        &mut line,
        7,
    );
    assert_eq!(
        vec![None, Some(Transition::Hide), None, Some(Transition::Show { offset: 3 })],
        decisions
    );
    let decisions = layout_messages(
        vec![
            slot(1, 3, 10, true),
            slot(2, 2, 6, false),
            slot(3, 8, 10, true),
            slot(4, 1, 20, true),
            slot(5, 1, 20, false),
            slot(6, 1, 20, false),
        ],
        &mut line,
        8,
    );
    assert_eq!(
        vec![
            None,
            None,
            None,
            None,
            Some(Transition::Show { offset: 4 }),
            Some(Transition::Show { offset: 13 }),
        ],
        decisions
    );
}

#[test]
fn slot_at_its_expiration_is_still_shown() {
    let mut line: Blocks<u8, u32> = Blocks::default();
    assert_eq!(
        Some(Transition::Show { offset: 0 }),
        layout_message(&mut line, slot(1, 4, 10, false), 10)
    );
    assert_eq!(None, layout_message(&mut line, slot(1, 4, 10, true), 10));
    assert_eq!(Some(Transition::Hide), layout_message(&mut line, slot(1, 4, 10, true), 11));
    assert_eq!(None, layout_message(&mut line, slot(1, 4, 10, false), 11));
    assert_eq!(
        Some(Transition::Show { offset: 0 }),
        layout_message(&mut line, slot(2, 4, 20, false), 11)
    );
}

#[test]
fn slot_that_cannot_be_measured_stays_hidden() {
    let mut line: Blocks<u8, u8> = Blocks::default();
    let decisions = layout_messages(
        vec![
            Slot { id: 1, size: 200, message: Message::new(9), visible: false },
            Slot { id: 2, size: 100, message: Message::new(9), visible: false },
            Slot { id: 3, size: 55, message: Message::new(9), visible: false },
        ],
        &mut line,
        1,
    );
    assert_eq!(
        vec![Some(Transition::Show { offset: 0 }), None, Some(Transition::Show { offset: 200 })],
        decisions
    );
}

#[test]
fn hiding_an_unknown_slot_changes_nothing() {
    let mut line: Blocks<u8, u32> = Blocks::default();
    layout_messages(vec![slot(1, 3, 10, false), slot(2, 2, 10, false)], &mut line, 5);
    assert_eq!(Some(Transition::Hide), layout_message(&mut line, slot(9, 2, 1, true), 5));
    assert_eq!(5, line.insert_size(3, 1));
}

#[test]
fn quantities_measure_as_their_numbers() {
    assert_eq!(0_u32, <u32 as Summable>::zero());
    assert_eq!(7_u32, 3_u32.plus(4));
    assert_eq!(Some(255_u8), 250_u8.checked_plus(5));
    assert_eq!(None, 250_u8.checked_plus(6));
    assert_eq!(6_u64, 10_u64.minus(4));
    assert!(3_u16.less_than(4));
    assert!(!4_u16.less_than(4));
    assert!(!5_usize.less_than(4));
    assert_eq!(Some(u128::MAX), (u128::MAX - 1).checked_plus(1));
    assert_eq!(None, u128::MAX.checked_plus(1));
}
