use bevy_debug_text_overlay::command::{Command, CommandChannels, SendError, MAX_LINES};
use bevy_debug_text_overlay::registry::{
    expiration_of, update_messages_as_per_commands, Directive, MessageRegistry, PushList,
};
use bevy_debug_text_overlay::site::InvocationSiteKey;

fn site(line: u32) -> InvocationSiteKey {
    InvocationSiteKey { file: "src/game.rs", line, column: 9 }
}

fn parts<C: Copy>(directive: &Directive<C>) -> (bool, u64, String, C, u64) {
    match directive {
        Directive::Spawn { id, text, color, expiration } => {
            (true, *id, text.clone(), *color, *expiration)
        }
        Directive::Update { id, text, color, expiration } => {
            (false, *id, text.clone(), *color, *expiration)
        }
    }
}

#[test]
fn site_is_written_in_brackets() {
    let key = InvocationSiteKey { file: "src/main.rs", line: 12, column: 5 };
    assert_eq!("[src/main.rs:12:5]", key.to_string());
}

#[test]
fn site_numbers_are_decimal() {
    let zero = InvocationSiteKey { file: "", line: 0, column: 0 };
    assert_eq!("[:0:0]", zero.to_string());
    let ten = InvocationSiteKey { file: "a", line: 10, column: 109 };
    assert_eq!("[a:10:109]", ten.to_string());
    let large = InvocationSiteKey { file: "lib.rs", line: u32::MAX, column: 1_000_000 };
    assert_eq!("[lib.rs:4294967295:1000000]", large.to_string());
}

#[test]
fn sites_are_equal_by_file_line_and_column() {
    assert!(site(3) == InvocationSiteKey { file: "src/game.rs", line: 3, column: 9 });
    assert!(site(3) != site(4));
    assert!(site(3) != InvocationSiteKey { file: "src/game.rs", line: 3, column: 8 });
    assert!(site(3) != InvocationSiteKey { file: "src/menu.rs", line: 3, column: 9 });
}

#[test]
fn refresh_command_carries_the_labelled_text() {
    let command: Command<u8> = Command::refresh(site(7), "fps: 60", 7_000, Some(3));
    match command {
        Command::Refresh { key, color, text, timeout } => {
            assert!(key == site(7));
            assert_eq!(Some(3), color);
            assert_eq!("[src/game.rs:7:9] fps: 60\n", text);
            assert_eq!(7_000, timeout);
        }
        Command::Push { .. } => panic!("a refresh was asked for"),
    }
}

#[test]
fn push_command_carries_the_labelled_text() {
    let command: Command<u8> = Command::push(&site(21), "hit", 1_938, None);
    match command {
        Command::Push { color, text, timeout } => {
            assert_eq!(None, color);
            assert_eq!("[src/game.rs:21:9] hit\n", text);
            assert_eq!(1_938, timeout);
        }
        Command::Refresh { .. } => panic!("a push was asked for"),
    }
}

#[test]
fn queue_hands_commands_out_in_the_order_sent() {
    let mut channels: CommandChannels<u8> = CommandChannels::new();
    assert_eq!(Ok(()), channels.refresh_text(site(1), || format!("x = {}", 4), 7_000, None));
    assert_eq!(Ok(()), channels.push_text(site(2), || "pushed".to_string(), 500, Some(9)));
    assert_eq!(Ok(()), channels.refresh_text(site(1), || "later".to_string(), 100, None));
    let drained = channels.drain();
    assert_eq!(3, drained.len());
    match &drained[0] {
        Command::Refresh { key, color, text, timeout } => {
            assert!(*key == site(1));
            assert_eq!(None, *color);
            assert_eq!("[src/game.rs:1:9] x = 4\n", text);
            assert_eq!(7_000, *timeout);
        }
        Command::Push { .. } => panic!("the first command was a refresh"),
    }
    match &drained[1] {
        Command::Push { color, text, timeout } => {
            assert_eq!(Some(9), *color);
            assert_eq!("[src/game.rs:2:9] pushed\n", text);
            assert_eq!(500, *timeout);
        }
        Command::Refresh { .. } => panic!("the second command was a push"),
    }
    match &drained[2] {
        Command::Refresh { text, timeout, .. } => {
            assert_eq!("[src/game.rs:1:9] later\n", text);
            assert_eq!(100, *timeout);
        }
        Command::Push { .. } => panic!("the third command was a refresh"),
    }
    assert!(channels.drain().is_empty());
}

#[test]
fn queue_is_full_at_its_capacity() {
    assert_eq!(4096, MAX_LINES);
    let mut channels: CommandChannels<u8> = CommandChannels::new();
    for count in 0..MAX_LINES {
        let sent = channels.push_text(site(1), || format!("{}", count), 7, None);
        assert_eq!(Ok(()), sent);
    }
    assert_eq!(Err(SendError::Full), channels.push_text(site(1), || "more".to_string(), 7, None));
    assert_eq!(Err(SendError::Full), channels.refresh_text(site(2), || "more".to_string(), 7, None));
    assert_eq!(Err(SendError::Full), channels.send(Command::push(&site(3), "more", 7, None)));
    let drained = channels.drain();
    assert_eq!(MAX_LINES, drained.len());
    match &drained[MAX_LINES - 1] {
        Command::Push { text, .. } => assert_eq!("[src/game.rs:1:9] 4095\n", text),
        Command::Refresh { .. } => panic!("only pushes were sent"),
    }
    assert_eq!(Ok(()), channels.push_text(site(1), || "again".to_string(), 7, None));
    assert_eq!(1, channels.drain().len());
}

#[test]
fn expiration_is_timeout_after_now() {
    assert_eq!(107, expiration_of(100, 7));
    assert_eq!(0, expiration_of(0, 0));
    assert_eq!(u64::MAX, expiration_of(1, u64::MAX - 1));
    assert_eq!(u64::MAX, expiration_of(2, u64::MAX - 1));
    assert_eq!(u64::MAX, expiration_of(u64::MAX, u64::MAX));
}

#[test]
fn push_takes_an_expired_slot_again() {
    let mut pool: PushList<u64> = PushList::default();
    assert_eq!(None, pool.new_or_allocate(|| 11, 100, 50));
    assert_eq!(None, pool.new_or_allocate(|| 12, 100, 10));
    assert_eq!(None, pool.new_or_allocate(|| 13, 110, 5));
    assert_eq!(Some(12), pool.new_or_allocate(|| 14, 111, 100));
    assert_eq!(None, pool.new_or_allocate(|| 15, 115, 1));
    assert_eq!(Some(13), pool.new_or_allocate(|| 16, 116, 1));
    assert_eq!(Some(13), pool.new_or_allocate(|| 17, 118, 1));
    assert_eq!(Some(15), pool.new_or_allocate(|| 18, 118, 1));
    assert_eq!(None, pool.new_or_allocate(|| 19, 118, 1));
}

#[test]
fn push_keeps_a_slot_until_its_time_is_past() {
    let mut pool: PushList<u8> = PushList::default();
    assert_eq!(None, pool.new_or_allocate(|| 1, 100, 10));
    assert_eq!(None, pool.new_or_allocate(|| 2, 110, 10));
    assert_eq!(Some(1), pool.new_or_allocate(|| 3, 111, 10));
}

#[test]
fn refresh_of_a_known_site_updates_its_slot() {
    let mut registry = MessageRegistry::new();
    let first = registry.apply(Command::refresh(site(1), "one", 10, Some('r')), 100, 'y', || 41);
    assert_eq!((true, 41, "[src/game.rs:1:9] one\n".to_string(), 'r', 110), parts(&first));
    let other = registry.apply(Command::refresh(site(2), "two", 20, None), 100, 'y', || 42);
    assert_eq!((true, 42, "[src/game.rs:2:9] two\n".to_string(), 'y', 120), parts(&other));
    let again = registry.apply(Command::refresh(site(1), "three", 30, None), 105, 'y', || 43);
    assert_eq!((false, 41, "[src/game.rs:1:9] three\n".to_string(), 'y', 135), parts(&again));
    let same_place = InvocationSiteKey { file: "src/game.rs", line: 2, column: 9 };
    let fourth = registry.apply(Command::refresh(same_place, "four", 1, Some('b')), 500, 'y', || 44);
    assert_eq!((false, 42, "[src/game.rs:2:9] four\n".to_string(), 'b', 501), parts(&fourth));
}

#[test]
fn pushes_recycle_slots_in_the_registry() {
    let mut registry = MessageRegistry::new();
    let first = registry.apply(Command::push(&site(1), "a", 10, None), 100, 0_u8, || 7);
    assert_eq!((true, 7, "[src/game.rs:1:9] a\n".to_string(), 0, 110), parts(&first));
    let second = registry.apply(Command::push(&site(1), "b", 10, Some(5)), 110, 0_u8, || 8);
    assert_eq!((true, 8, "[src/game.rs:1:9] b\n".to_string(), 5, 120), parts(&second));
    let third = registry.apply(Command::push(&site(1), "c", 10, None), 111, 0_u8, || 9);
    assert_eq!((false, 7, "[src/game.rs:1:9] c\n".to_string(), 0, 121), parts(&third));
}

#[test]
fn later_refresh_in_a_tick_wins() {
    let mut registry = MessageRegistry::new();
    let mut next = 100_u64;
    let commands = vec![
        Command::refresh(site(1), "early", 10, Some(1_u8)),
        Command::push(&site(5), "pushed", 3, None),
        Command::refresh(site(2), "other", 10, None),
        Command::refresh(site(1), "late", 99, Some(2_u8)),
    ];
    let directives = update_messages_as_per_commands(&mut registry, commands, 1_000, 9_u8, || {
        next += 1;
        next
    });
    assert_eq!(4, directives.len());
    assert_eq!((true, 101, "[src/game.rs:1:9] early\n".to_string(), 1, 1_010), parts(&directives[0]));
    assert_eq!((true, 102, "[src/game.rs:5:9] pushed\n".to_string(), 9, 1_003), parts(&directives[1]));
    assert_eq!((true, 103, "[src/game.rs:2:9] other\n".to_string(), 9, 1_010), parts(&directives[2]));
    assert_eq!((false, 101, "[src/game.rs:1:9] late\n".to_string(), 2, 1_099), parts(&directives[3]));
    assert_eq!(103, next);

    let commands = vec![
        Command::push(&site(5), "second push", 3, None),
        Command::refresh(site(2), "once more", 1, None),
    ];
    let directives = update_messages_as_per_commands(&mut registry, commands, 1_004, 9_u8, || {
        next += 1;
        next
    });
    assert_eq!(
        (false, 102, "[src/game.rs:5:9] second push\n".to_string(), 9, 1_007),
        parts(&directives[0])
    );
    assert_eq!(
        (false, 103, "[src/game.rs:2:9] once more\n".to_string(), 9, 1_005),
        parts(&directives[1])
    );
    assert_eq!(103, next);
}

#[test]
fn no_command_asks_for_nothing() {
    let mut registry = MessageRegistry::new();
    let directives: Vec<Directive<u8>> =
        update_messages_as_per_commands(&mut registry, Vec::new(), 5, 0, || 1);
    assert!(directives.is_empty());
}

#[test]
fn expired_slot_is_the_first_whose_time_is_past() {
    let mut pool: PushList<u64> = PushList::default();
    assert_eq!(None, pool.expired_slot(1_000));
    pool.new_or_allocate(|| 11, 100, 50);
    pool.new_or_allocate(|| 12, 100, 10);
    pool.new_or_allocate(|| 13, 100, 20);
    assert_eq!(None, pool.expired_slot(110));
    assert_eq!(Some(12), pool.expired_slot(111));
    assert_eq!(Some(12), pool.expired_slot(121));
    assert_eq!(Some(11), pool.expired_slot(151));
}

#[test]
fn slot_of_finds_what_the_registry_has() {
    let mut registry = MessageRegistry::new();
    let refresh: Command<u8> = Command::refresh(site(1), "one", 10, None);
    let push: Command<u8> = Command::push(&site(1), "two", 10, None);
    assert_eq!(None, registry.slot_of(&refresh, 100));
    assert_eq!(None, registry.slot_of(&push, 100));
    registry.settle(refresh, 100, 0, 31);
    registry.settle(push, 100, 0, 32);
    let refresh: Command<u8> = Command::refresh(site(1), "three", 10, None);
    let elsewhere: Command<u8> = Command::refresh(site(2), "four", 10, None);
    let push: Command<u8> = Command::push(&site(1), "five", 10, None);
    assert_eq!(Some(31), registry.slot_of(&refresh, 105));
    assert_eq!(None, registry.slot_of(&elsewhere, 105));
    assert_eq!(None, registry.slot_of(&push, 110));
    assert_eq!(Some(32), registry.slot_of(&push, 111));
}

#[test]
fn settle_uses_the_fresh_slot_only_where_none_is_known() {
    let mut registry = MessageRegistry::new();
    let first = registry.settle(Command::refresh(site(1), "one", 10, Some('r')), 100, 'y', 41);
    assert_eq!((true, 41, "[src/game.rs:1:9] one\n".to_string(), 'r', 110), parts(&first));
    let again = registry.settle(Command::refresh(site(1), "two", 1, None), 100, 'y', 42);
    assert_eq!((false, 41, "[src/game.rs:1:9] two\n".to_string(), 'y', 101), parts(&again));
    let pushed = registry.settle(Command::push(&site(1), "three", 5, None), 100, 'y', 43);
    assert_eq!((true, 43, "[src/game.rs:1:9] three\n".to_string(), 'y', 105), parts(&pushed));
    let kept = registry.settle(Command::push(&site(1), "four", 5, None), 105, 'y', 44);
    assert_eq!((true, 44, "[src/game.rs:1:9] four\n".to_string(), 'y', 110), parts(&kept));
    let taken = registry.settle(Command::push(&site(1), "five", 5, None), 106, 'y', 45);
    assert_eq!((false, 43, "[src/game.rs:1:9] five\n".to_string(), 'y', 111), parts(&taken));
}

#[test]
fn timeout_beyond_the_clock_stays_for_ever() {
    let mut registry = MessageRegistry::new();
    let first = registry.apply(Command::push(&site(1), "a", u64::MAX, None), 100, 0_u8, || 7);
    assert_eq!((true, 7, "[src/game.rs:1:9] a\n".to_string(), 0, u64::MAX), parts(&first));
    let second = registry.apply(Command::push(&site(1), "b", 1, None), u64::MAX, 0_u8, || 8);
    assert_eq!((true, 8, "[src/game.rs:1:9] b\n".to_string(), 0, u64::MAX), parts(&second));
}
