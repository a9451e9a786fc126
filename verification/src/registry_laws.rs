//! What holds of the registry whatever the commands: a call site keeps its
//! slot, a pushed message takes an expired slot before a new one, and of
//! two refreshes of a call site the later one is what the slot shows.

use crate::command::CommandView;
use crate::site::SiteView;
use crate::registry::{
    after_command, content_of, directive_for, expiry, first_expired, lemma_first_expired, replay,
    Content, DirectiveView, PushEntry, RegistryView,
};
use vstd::prelude::*;

verus! {

/// What the slots show once the renderer has done what the directives say,
/// one after the other, starting from what `display` shows.
pub open spec fn shown<C>(display: Map<u64, Content<C>>, directives: Seq<DirectiveView<C>>) -> Map<
    u64,
    Content<C>,
>
    decreases directives.len(),
{
    if directives.len() == 0 {
        display
    } else {
        shown(display, directives.drop_last()).insert(
            directives.last().id,
            directives.last().content,
        )
    }
}

/// A pushed message whose pool has a slot that expired before `now` takes
/// the first such slot again: no slot is created and the pool keeps its
/// length. Where no slot has expired, the message gets the new slot, which
/// joins the pool at its end.
pub proof fn lemma_push_recycles<C>(
    state: RegistryView,
    command: CommandView<C>,
    now: u64,
    fallback: C,
    fresh: u64,
)
    requires
        command is Push,
    ensures
        after_command(state, command, now, fresh).keys == state.keys,
        match first_expired(state.pool, now) {
            Some(index) => {
                &&& 0 <= index < state.pool.len()
                &&& state.pool[index].expired < now
                &&& !directive_for(state, command, now, fallback, fresh).fresh
                &&& directive_for(state, command, now, fallback, fresh).id
                    == state.pool[index].entity
                &&& after_command(state, command, now, fresh).pool == state.pool.update(
                    index,
                    PushEntry {
                        entity: state.pool[index].entity,
                        expired: expiry(now, command.timeout()),
                    },
                )
                &&& after_command(state, command, now, fresh).pool.len() == state.pool.len()
            },
            None => {
                &&& forall|j: int|
                    0 <= j < state.pool.len() ==> (#[trigger] state.pool[j]).expired >= now
                &&& directive_for(state, command, now, fallback, fresh).fresh
                &&& directive_for(state, command, now, fallback, fresh).id == fresh
                &&& after_command(state, command, now, fresh).pool == state.pool.push(
                    PushEntry { entity: fresh, expired: expiry(now, command.timeout()) },
                )
                &&& after_command(state, command, now, fresh).pool.len() == state.pool.len() + 1
            },
        },
{
    lemma_first_expired(state.pool, now);
}

/// A refresh goes to the slot of its call site and leaves the registry as
/// it is. Where the call site has no slot, it gets the new one, and nothing
/// else changes.
pub proof fn lemma_refresh_resolves<C>(
    state: RegistryView,
    command: CommandView<C>,
    now: u64,
    fallback: C,
    fresh: u64,
)
    requires
        command is Refresh,
    ensures
        after_command(state, command, now, fresh).pool == state.pool,
        directive_for(state, command, now, fallback, fresh).content == content_of(
            command,
            now,
            fallback,
        ),
        state.keys.contains_key(command->Refresh_key) ==> {
            &&& after_command(state, command, now, fresh) == state
            &&& !directive_for(state, command, now, fallback, fresh).fresh
            &&& directive_for(state, command, now, fallback, fresh).id
                == state.keys[command->Refresh_key]
        },
        !state.keys.contains_key(command->Refresh_key) ==> {
            &&& after_command(state, command, now, fresh).keys == state.keys.insert(
                command->Refresh_key,
                fresh,
            )
            &&& directive_for(state, command, now, fallback, fresh).fresh
            &&& directive_for(state, command, now, fallback, fresh).id == fresh
        },
{
}

/// A command leaves every call site the slot that it has.
pub proof fn lemma_command_keeps_sites<C>(
    state: RegistryView,
    command: CommandView<C>,
    now: u64,
    fresh: u64,
    site: SiteView,
)
    requires
        state.keys.contains_key(site),
    ensures
        after_command(state, command, now, fresh).keys.contains_key(site),
        after_command(state, command, now, fresh).keys[site] == state.keys[site],
{
}

/// A command takes no slot out of the pool: the pool is as long as before
/// or one longer, and each of its slots keeps its identifier.
pub proof fn lemma_command_keeps_pool<C>(
    state: RegistryView,
    command: CommandView<C>,
    now: u64,
    fresh: u64,
    index: int,
)
    requires
        0 <= index < state.pool.len(),
    ensures
        state.pool.len() <= after_command(state, command, now, fresh).pool.len() <= state.pool.len()
            + 1,
        after_command(state, command, now, fresh).pool[index].entity == state.pool[index].entity,
{
    lemma_first_expired(state.pool, now);
}

/// Every command gets one directive.
pub proof fn lemma_replay_len<C>(
    state: RegistryView,
    commands: Seq<CommandView<C>>,
    now: u64,
    fallback: C,
    fresh: Seq<u64>,
)
    ensures
        replay(state, commands, now, fallback, fresh).1.len() == commands.len(),
    decreases commands.len(),
{
    if commands.len() > 0 {
        lemma_replay_len(state, commands.drop_last(), now, fallback, fresh.drop_last());
    }
}

/// The directive for a command is the one that the command gets in the
/// state that the commands before it have left.
pub proof fn lemma_directive_of_command<C>(
    state: RegistryView,
    commands: Seq<CommandView<C>>,
    now: u64,
    fallback: C,
    fresh: Seq<u64>,
    index: int,
)
    requires
        fresh.len() == commands.len(),
        0 <= index < commands.len(),
    ensures
        replay(state, commands, now, fallback, fresh).1.len() == commands.len(),
        replay(state, commands, now, fallback, fresh).1[index] == directive_for(
            replay(state, commands.take(index), now, fallback, fresh.take(index)).0,
            commands[index],
            now,
            fallback,
            fresh[index],
        ),
        replay(state, commands.take(index + 1), now, fallback, fresh.take(index + 1)).0
            == after_command(
            replay(state, commands.take(index), now, fallback, fresh.take(index)).0,
            commands[index],
            now,
            fresh[index],
        ),
    decreases commands.len(),
{
    let front = commands.drop_last();
    let front_fresh = fresh.drop_last();
    assert(commands.take(index + 1).drop_last() =~= commands.take(index));
    assert(fresh.take(index + 1).drop_last() =~= fresh.take(index));
    lemma_replay_len(state, commands, now, fallback, fresh);
    lemma_replay_len(state, front, now, fallback, front_fresh);
    if index == commands.len() - 1 {
        assert(commands.take(index) =~= front);
        assert(fresh.take(index) =~= front_fresh);
    } else {
        lemma_directive_of_command(state, front, now, fallback, front_fresh, index);
        assert(front.take(index) =~= commands.take(index));
        assert(front_fresh.take(index) =~= fresh.take(index));
    }
}

/// A call site that has a slot after some of the commands has the same slot
/// after more of them.
pub proof fn lemma_replay_keeps_sites<C>(
    state: RegistryView,
    commands: Seq<CommandView<C>>,
    now: u64,
    fallback: C,
    fresh: Seq<u64>,
    fewer: int,
    more: int,
    site: SiteView,
)
    requires
        fresh.len() == commands.len(),
        0 <= fewer <= more <= commands.len(),
        replay(state, commands.take(fewer), now, fallback, fresh.take(fewer)).0.keys.contains_key(
            site,
        ),
    ensures
        replay(state, commands.take(more), now, fallback, fresh.take(more)).0.keys.contains_key(site),
        replay(state, commands.take(more), now, fallback, fresh.take(more)).0.keys[site] == replay(
            state,
            commands.take(fewer),
            now,
            fallback,
            fresh.take(fewer),
        ).0.keys[site],
    decreases more - fewer,
{
    if fewer < more {
        lemma_replay_keeps_sites(state, commands, now, fallback, fresh, fewer, more - 1, site);
        lemma_directive_of_command(state, commands, now, fallback, fresh, more - 1);
    }
}

/// Of two refreshes of one call site among the commands of a tick, the
/// later one goes to the slot of the earlier one, creates no slot, and its
/// directive carries the text, the colour and the timeout of the later
/// command alone.
pub proof fn lemma_later_refresh_wins<C>(
    state: RegistryView,
    commands: Seq<CommandView<C>>,
    now: u64,
    fallback: C,
    fresh: Seq<u64>,
    earlier: int,
    later: int,
)
    requires
        fresh.len() == commands.len(),
        0 <= earlier < later < commands.len(),
        commands[earlier] is Refresh,
        commands[later] is Refresh,
        commands[earlier]->Refresh_key == commands[later]->Refresh_key,
    ensures
        replay(state, commands, now, fallback, fresh).1[later].id == replay(
            state,
            commands,
            now,
            fallback,
            fresh,
        ).1[earlier].id,
        !replay(state, commands, now, fallback, fresh).1[later].fresh,
        replay(state, commands, now, fallback, fresh).1[later].content == content_of(
            commands[later],
            now,
            fallback,
        ),
{
    let site = commands[earlier]->Refresh_key;
    lemma_directive_of_command(state, commands, now, fallback, fresh, earlier);
    lemma_directive_of_command(state, commands, now, fallback, fresh, later);
    lemma_replay_keeps_sites(state, commands, now, fallback, fresh, earlier + 1, later, site);
}

/// Once the renderer has done what the directives say, a slot shows what
/// the last directive that names it carries.
pub proof fn lemma_last_directive_shows<C>(
    display: Map<u64, Content<C>>,
    directives: Seq<DirectiveView<C>>,
    index: int,
)
    requires
        0 <= index < directives.len(),
        forall|after: int|
            index < after < directives.len() ==> (#[trigger] directives[after]).id
                != directives[index].id,
    ensures
        shown(display, directives).contains_key(directives[index].id),
        shown(display, directives)[directives[index].id] == directives[index].content,
    decreases directives.len(),
{
    if index < directives.len() - 1 {
        let front = directives.drop_last();
        assert(forall|i: int| 0 <= i < front.len() ==> front[i] == directives[i]);
        lemma_last_directive_shows(display, front, index);
    }
}

/// Two refreshes of one call site drained in one tick leave the slot of the
/// call site with the text, the colour and the expiration of the later one,
/// provided that no later command of the tick goes to that slot.
pub proof fn lemma_refresh_last_write_wins<C>(
    state: RegistryView,
    display: Map<u64, Content<C>>,
    commands: Seq<CommandView<C>>,
    now: u64,
    fallback: C,
    fresh: Seq<u64>,
    earlier: int,
    later: int,
)
    requires
        fresh.len() == commands.len(),
        0 <= earlier < later < commands.len(),
        commands[earlier] is Refresh,
        commands[later] is Refresh,
        commands[earlier]->Refresh_key == commands[later]->Refresh_key,
        forall|after: int|
            later < after < commands.len() ==> (#[trigger] replay(
                state,
                commands,
                now,
                fallback,
                fresh,
            ).1[after]).id != replay(state, commands, now, fallback, fresh).1[later].id,
    ensures
        shown(display, replay(state, commands, now, fallback, fresh).1)[replay(
            state,
            commands,
            now,
            fallback,
            fresh,
        ).1[earlier].id] == content_of(commands[later], now, fallback),
{
    lemma_later_refresh_wins(state, commands, now, fallback, fresh, earlier, later);
    lemma_directive_of_command(state, commands, now, fallback, fresh, later);
    lemma_last_directive_shows(display, replay(state, commands, now, fallback, fresh).1, later);
}

} // verus!
