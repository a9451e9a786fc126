//! The registry of messages: which slot belongs to which call site, and the
//! pool of slots that pushed messages take turns in.
//!
//! The registry owns no slot. It asks the renderer for the identifier of a
//! new slot when it needs one, and tells it, command by command, which slot
//! is to show what and until when.

use crate::command::{command_views, Command, CommandView};
use crate::registry_laws::lemma_later_refresh_wins;
use crate::site::{InvocationSiteKey, SiteView};
use vstd::prelude::*;

verus! {

/// The slot of each call site that has one, by the view of the call site.
pub type SlotsBySite = Map<SiteView, u64>;

/// The slots of the call sites, kept in the hash map of `bevy::utils`. The
/// map is keyed by what makes a call site: the file, the line and the
/// column.
#[verifier::external_body]
pub struct KeyMap {
    slots: bevy::utils::HashMap<(&'static str, u32, u32), u64>,
}

/// The slot that the hash map holds for each call site.
pub uninterp spec fn recorded_slots(map: KeyMap) -> SlotsBySite;

impl View for KeyMap {
    type V = SlotsBySite;

    open spec fn view(&self) -> SlotsBySite {
        recorded_slots(*self)
    }
}

impl KeyMap {
    /// `bevy::utils::HashMap::default`: a map that holds nothing.
    #[verifier::external_body]
    pub(crate) fn new() -> (created: Self)
        ensures
            recorded_slots(created) == SlotsBySite::empty(),
    {
        KeyMap { slots: bevy::utils::HashMap::default() }
    }

    /// `bevy::utils::HashMap::get`: the slot held for the call site with
    /// the file name, the line and the column of `key`; `None` where the
    /// map holds none for it.
    #[verifier::external_body]
    pub(crate) fn get(&self, key: &InvocationSiteKey) -> (slot: Option<u64>)
        ensures
            slot == if recorded_slots(*self).contains_key(key@) {
                Some(recorded_slots(*self)[key@])
            } else {
                None
            },
    {
        self.slots.get(&(key.file, key.line, key.column)).copied()
    }

    /// `bevy::utils::HashMap::insert`: afterwards the map holds `slot` for
    /// the call site `key`, in place of what it held for it, and for every
    /// other call site what it held before.
    #[verifier::external_body]
    pub(crate) fn insert(&mut self, key: InvocationSiteKey, slot: u64)
        ensures
            recorded_slots(*final(self)) == recorded_slots(*old(self)).insert(key@, slot),
    {
        self.slots.insert((key.file, key.line, key.column), slot);
    }
}

/// The time until which a message drained at `now` stays: `timeout` later,
/// or the end of time where that lies beyond what the clock can tell.
pub open spec fn expiry(now: u64, timeout: u64) -> u64 {
    if now + timeout <= u64::MAX {
        (now + timeout) as u64
    } else {
        u64::MAX
    }
}

/// The time until which a message drained at `now` stays.
pub fn expiration_of(now: u64, timeout: u64) -> (expiration: u64)
    ensures
        expiration == expiry(now, timeout),
{
    now.saturating_add(timeout)
}

/// A slot of the pool and the time until which its message stays.
#[derive(Debug)]
pub struct PushEntry<Id> {
    pub entity: Id,
    pub expired: u64,
}

impl<Id: Copy> Clone for PushEntry<Id> {
    fn clone(&self) -> (copy: Self)
        ensures
            copy == *self,
    {
        PushEntry { entity: self.entity, expired: self.expired }
    }
}

impl<Id: Copy> Copy for PushEntry<Id> {

}

/// The index of the first slot of the pool whose message has expired before
/// `now`, if there is one.
pub open spec fn first_expired<Id>(pool: Seq<PushEntry<Id>>, now: u64) -> Option<int>
    decreases pool.len(),
{
    if pool.len() == 0 {
        None
    } else {
        match first_expired(pool.drop_last(), now) {
            Some(index) => Some(index),
            None => if pool.last().expired < now {
                Some(pool.len() - 1)
            } else {
                None
            },
        }
    }
}

/// `first_expired` gives the least index of a slot that has expired.
pub proof fn lemma_first_expired<Id>(pool: Seq<PushEntry<Id>>, now: u64)
    ensures
        match first_expired(pool, now) {
            Some(index) => {
                &&& 0 <= index < pool.len()
                &&& pool[index].expired < now
                &&& forall|j: int| 0 <= j < index ==> (#[trigger] pool[j]).expired >= now
            },
            None => forall|j: int| 0 <= j < pool.len() ==> (#[trigger] pool[j]).expired >= now,
        },
    decreases pool.len(),
{
    if pool.len() > 0 {
        let front = pool.drop_last();
        lemma_first_expired(front, now);
        assert(forall|j: int| 0 <= j < front.len() ==> front[j] == pool[j]);
    }
}

/// The pool of slots for pushed messages. A slot whose message has expired
/// is free for the next pushed message.
#[derive(Debug)]
pub struct PushList<Id>(Vec<PushEntry<Id>>);

impl<Id> View for PushList<Id> {
    type V = Seq<PushEntry<Id>>;

    closed spec fn view(&self) -> Seq<PushEntry<Id>> {
        self.0@
    }
}

impl<Id> Default for PushList<Id> {
    /// The pool without slots.
    fn default() -> (pool: Self)
        ensures
            pool@ == Seq::<PushEntry<Id>>::empty(),
    {
        PushList(Vec::new())
    }
}

impl<Id: Copy> PushList<Id> {
    /// The index of the first slot whose message expired before `current`,
    /// if there is one.
    fn find_expired(&self, current: u64) -> (found: Option<usize>)
        ensures
            match found {
                Some(index) => first_expired(self@, current) == Some(index as int) && index
                    < self@.len(),
                None => first_expired(self@, current) is None,
            },
    {
        let mut index: usize = 0;
        while index < self.0.len()
            invariant
                index <= self.0.len(),
                forall|j: int| 0 <= j < index ==> (#[trigger] self@[j]).expired >= current,
            decreases self.0.len() - index,
        {
            if self.0[index].expired < current {
                proof {
                    lemma_first_expired(self@, current);
                }
                return Some(index);
            }
            index += 1;
        }
        proof {
            lemma_first_expired(self@, current);
        }
        None
    }

    /// The first slot whose message expired before `current`, if there is
    /// one: the slot that the next pushed message takes.
    pub fn expired_slot(&self, current: u64) -> (slot: Option<Id>)
        ensures
            slot == match first_expired(self@, current) {
                Some(index) => Some(self@[index].entity),
                None => None,
            },
    {
        match self.find_expired(current) {
            Some(index) => Some(self.0[index].entity),
            None => None,
        }
    }

    /// Finds a slot for a message pushed at `current` that stays for
    /// `timeout`. The first slot whose message expired before `current` is
    /// taken again and returned. Where there is none, `spawn_new` is asked
    /// for a new slot, which joins the pool, and `None` is returned.
    pub fn new_or_allocate(
        &mut self,
        spawn_new: impl FnOnce() -> Id,
        current: u64,
        timeout: u64,
    ) -> (reused: Option<Id>)
        requires
            spawn_new.requires(()),
        ensures
            match first_expired(old(self)@, current) {
                Some(index) => {
                    &&& reused == Some(old(self)@[index].entity)
                    &&& final(self)@ == old(self)@.update(
                        index,
                        PushEntry {
                            entity: old(self)@[index].entity,
                            expired: expiry(current, timeout),
                        },
                    )
                },
                None => {
                    &&& reused is None
                    &&& final(self)@.len() == old(self)@.len() + 1
                    &&& spawn_new.ensures((), final(self)@.last().entity)
                    &&& final(self)@ == old(self)@.push(
                        PushEntry {
                            entity: final(self)@.last().entity,
                            expired: expiry(current, timeout),
                        },
                    )
                },
            },
    {
        let expired = expiration_of(current, timeout);
        match self.find_expired(current) {
            Some(index) => {
                let entity = self.0[index].entity;
                self.0[index] = PushEntry { entity, expired };
                Some(entity)
            },
            None => {
                let entity = spawn_new();
                self.0.push(PushEntry { entity, expired });
                None
            },
        }
    }
}

/// What the renderer is to do for one command. `C` is its colour.
#[derive(Debug)]
pub enum Directive<C> {
    /// The slot `id`, which the renderer has just created for the registry
    /// and which is hidden, shows `text` in `color` until `expiration`.
    Spawn { id: u64, text: String, color: C, expiration: u64 },
    /// The slot `id`, which the registry knew, shows `text` in `color`
    /// until `expiration` from now on, whatever it showed before.
    Update { id: u64, text: String, color: C, expiration: u64 },
}

/// What a slot shows and until when.
pub struct Content<C> {
    pub text: Seq<char>,
    pub color: C,
    pub expiration: u64,
}

/// A directive as contracts see it: whether the slot is new, the slot, and
/// what it is to show.
pub struct DirectiveView<C> {
    pub fresh: bool,
    pub id: u64,
    pub content: Content<C>,
}

impl<C> View for Directive<C> {
    type V = DirectiveView<C>;

    open spec fn view(&self) -> DirectiveView<C> {
        match *self {
            Directive::Spawn { id, text, color, expiration } => DirectiveView {
                fresh: true,
                id,
                content: Content { text: text@, color, expiration },
            },
            Directive::Update { id, text, color, expiration } => DirectiveView {
                fresh: false,
                id,
                content: Content { text: text@, color, expiration },
            },
        }
    }
}

/// The views of the directives of a vector, in their order.
pub open spec fn directive_views<C>(directives: Seq<Directive<C>>) -> Seq<DirectiveView<C>> {
    Seq::new(directives.len(), |i: int| directives[i]@)
}

/// The slots that the directives name, in their order.
pub open spec fn slots_named<C>(directives: Seq<DirectiveView<C>>) -> Seq<u64> {
    Seq::new(directives.len(), |i: int| directives[i].id)
}

/// The state of the registry: the slot of each call site that has one, and
/// the pool of the slots of pushed messages.
pub struct RegistryView {
    pub keys: SlotsBySite,
    pub pool: Seq<PushEntry<u64>>,
}

/// The slot that the registry has for a command drained at `now`: for a
/// refresh, the slot of its call site; for a push, the first slot of the
/// pool whose message has expired.
pub open spec fn known_slot<C>(state: RegistryView, command: CommandView<C>, now: u64) -> Option<
    u64,
> {
    match command {
        CommandView::Refresh { key, .. } => if state.keys.contains_key(key) {
            Some(state.keys[key])
        } else {
            None
        },
        CommandView::Push { .. } => match first_expired(state.pool, now) {
            Some(index) => Some(state.pool[index].entity),
            None => None,
        },
    }
}

/// The slot that a command drained at `now` ends up in, where `fresh` is
/// the slot that the renderer would create for it.
pub open spec fn slot_for<C>(
    state: RegistryView,
    command: CommandView<C>,
    now: u64,
    fresh: u64,
) -> u64 {
    match known_slot(state, command, now) {
        Some(id) => id,
        None => fresh,
    }
}

/// The state of the registry after a command drained at `now`, where
/// `fresh` is the slot that the renderer would create for it. A call site
/// keeps the slot it has; one that has none gets `fresh`. A pushed message
/// takes the first expired slot of the pool; where there is none, `fresh`
/// joins the pool.
pub open spec fn after_command<C>(
    state: RegistryView,
    command: CommandView<C>,
    now: u64,
    fresh: u64,
) -> RegistryView {
    match command {
        CommandView::Refresh { key, .. } => if state.keys.contains_key(key) {
            state
        } else {
            RegistryView { keys: state.keys.insert(key, fresh), pool: state.pool }
        },
        CommandView::Push { timeout, .. } => match first_expired(state.pool, now) {
            Some(index) => RegistryView {
                keys: state.keys,
                pool: state.pool.update(
                    index,
                    PushEntry { entity: state.pool[index].entity, expired: expiry(now, timeout) },
                ),
            },
            None => RegistryView {
                keys: state.keys,
                pool: state.pool.push(PushEntry { entity: fresh, expired: expiry(now, timeout) }),
            },
        },
    }
}

/// What a command drained at `now` asks to be shown: its text, in its
/// colour or else in `fallback`, until its timeout has passed.
pub open spec fn content_of<C>(command: CommandView<C>, now: u64, fallback: C) -> Content<C> {
    Content {
        text: command.text(),
        color: match command.color() {
            Some(color) => color,
            None => fallback,
        },
        expiration: expiry(now, command.timeout()),
    }
}

/// What the renderer is to do for a command drained at `now`, where `fresh`
/// is the slot that it would create for it.
pub open spec fn directive_for<C>(
    state: RegistryView,
    command: CommandView<C>,
    now: u64,
    fallback: C,
    fresh: u64,
) -> DirectiveView<C> {
    DirectiveView {
        fresh: known_slot(state, command, now) is None,
        id: slot_for(state, command, now, fresh),
        content: content_of(command, now, fallback),
    }
}

/// The state of the registry after the commands, all drained at `now`, and
/// what the renderer is to do for each of them. `fresh[i]` is the slot that
/// the renderer would create for the command of index `i`.
pub open spec fn replay<C>(
    state: RegistryView,
    commands: Seq<CommandView<C>>,
    now: u64,
    fallback: C,
    fresh: Seq<u64>,
) -> (RegistryView, Seq<DirectiveView<C>>)
    decreases commands.len(),
{
    if commands.len() == 0 {
        (state, Seq::empty())
    } else {
        let (before, done) = replay(state, commands.drop_last(), now, fallback, fresh.drop_last());
        (
            after_command(before, commands.last(), now, fresh.last()),
            done.push(directive_for(before, commands.last(), now, fallback, fresh.last())),
        )
    }
}

/// The registry of messages: the slot of each call site that has sent a
/// refresh, and the pool of slots of the pushed messages.
pub struct MessageRegistry {
    key_entities: KeyMap,
    push_entities: PushList<u64>,
}

impl View for MessageRegistry {
    type V = RegistryView;

    closed spec fn view(&self) -> RegistryView {
        RegistryView { keys: self.key_entities@, pool: self.push_entities@ }
    }
}

impl MessageRegistry {
    /// The registry that knows no call site and has no slot in its pool.
    pub fn new() -> (registry: Self)
        ensures
            registry@.keys == SlotsBySite::empty(),
            registry@.pool == Seq::<PushEntry<u64>>::empty(),
    {
        MessageRegistry { key_entities: KeyMap::new(), push_entities: PushList::default() }
    }

    /// The slot that the registry has for a command drained at `now`: the
    /// slot of the call site of a refresh, or the first expired slot of the
    /// pool for a push. `None` where the renderer has to create one.
    pub fn slot_of<C>(&self, command: &Command<C>, now: u64) -> (slot: Option<u64>)
        ensures
            slot == known_slot(self@, command@, now),
    {
        match command {
            Command::Refresh { key, .. } => self.key_entities.get(key),
            Command::Push { .. } => self.push_entities.expired_slot(now),
        }
    }

    /// Records one command drained at `now` and says what the renderer is
    /// to do for it. `fresh` is the hidden slot that the renderer has
    /// created for the command; it is used only where
    /// [`slot_of`](MessageRegistry::slot_of) finds no slot.
    pub fn settle<C>(
        &mut self,
        command: Command<C>,
        now: u64,
        fallback_color: C,
        fresh: u64,
    ) -> (directive: Directive<C>)
        ensures
            directive@ == directive_for(old(self)@, command@, now, fallback_color, fresh),
            final(self)@ == after_command(old(self)@, command@, now, fresh),
    {
        match command {
            Command::Refresh { key, color, text, timeout } => {
                let color = match color {
                    Some(color) => color,
                    None => fallback_color,
                };
                let expiration = expiration_of(now, timeout);
                match self.key_entities.get(&key) {
                    Some(id) => Directive::Update { id, text, color, expiration },
                    None => {
                        self.key_entities.insert(key, fresh);
                        Directive::Spawn { id: fresh, text, color, expiration }
                    },
                }
            },
            Command::Push { color, text, timeout } => {
                let color = match color {
                    Some(color) => color,
                    None => fallback_color,
                };
                let expiration = expiration_of(now, timeout);
                let spawn = || -> (id: u64)
                    ensures
                        id == fresh,
                    { fresh };
                match self.push_entities.new_or_allocate(spawn, now, timeout) {
                    Some(id) => Directive::Update { id, text, color, expiration },
                    None => Directive::Spawn { id: fresh, text, color, expiration },
                }
            },
        }
    }

    /// Resolves one command drained at `now` to a slot and says what the
    /// renderer is to do. `request_id` is called, once, only where the
    /// command needs a slot that the registry does not have: it creates a
    /// hidden slot and returns its identifier.
    pub fn apply<C>(
        &mut self,
        command: Command<C>,
        now: u64,
        fallback_color: C,
        request_id: impl FnOnce() -> u64,
    ) -> (directive: Directive<C>)
        requires
            request_id.requires(()),
        ensures
            directive@ == directive_for(old(self)@, command@, now, fallback_color, directive@.id),
            final(self)@ == after_command(old(self)@, command@, now, directive@.id),
            directive@.fresh ==> request_id.ensures((), directive@.id),
    {
        let slot = match self.slot_of(&command, now) {
            Some(known) => known,
            None => request_id(),
        };
        self.settle(command, now, fallback_color, slot)
    }
}

/// Resolves the commands drained at `current_time` to slots, in their
/// order, and says for each what the renderer is to do. `request_id` is
/// called once for each command that needs a slot that the registry does
/// not have: it creates a hidden slot and returns its identifier.
///
/// Of two refreshes of one call site, the later one goes to the slot of
/// the earlier one and carries its own text, colour and expiration: the
/// last write wins.
pub fn update_messages_as_per_commands<C: Copy, F: FnMut() -> u64>(
    registry: &mut MessageRegistry,
    commands: Vec<Command<C>>,
    current_time: u64,
    fallback_color: C,
    mut request_id: F,
) -> (directives: Vec<Directive<C>>)
    requires
        call_requires(request_id, ()),
    ensures
        directives@.len() == commands@.len(),
        (final(registry)@, directive_views(directives@)) == replay(
            old(registry)@,
            command_views(commands@),
            current_time,
            fallback_color,
            slots_named(directive_views(directives@)),
        ),
        forall|i: int|
            0 <= i < directives@.len() && (#[trigger] directives@[i])@.fresh ==> call_ensures(
                request_id,
                (),
                directives@[i]@.id,
            ),
        forall|earlier: int, later: int|
            0 <= earlier < later < commands@.len() && (#[trigger] commands@[earlier])@ is Refresh
                && (#[trigger] commands@[later])@ is Refresh && commands@[earlier]@->Refresh_key
                == commands@[later]@->Refresh_key ==> {
                &&& directives@[later]@.id == directives@[earlier]@.id
                &&& !directives@[later]@.fresh
                &&& directives@[later]@.content == content_of(
                    commands@[later]@,
                    current_time,
                    fallback_color,
                )
            },
{
    let mut directives: Vec<Directive<C>> = Vec::new();
    let ghost all = command_views(commands@);
    let ghost taken = commands@;
    let ghost source = request_id;
    proof {
        assert(all.take(0) =~= Seq::<CommandView<C>>::empty());
        assert(directive_views(directives@) =~= Seq::<DirectiveView<C>>::empty());
        assert(slots_named(directive_views(directives@)) =~= Seq::<u64>::empty());
    }
    for command in it: commands
        invariant
            it.seq() == taken,
            all == command_views(taken),
            request_id == source,
            call_requires(source, ()),
            directives@.len() == it.index(),
            forall|i: int|
                0 <= i < directives@.len() && (#[trigger] directives@[i])@.fresh ==> call_ensures(
                    source,
                    (),
                    directives@[i]@.id,
                ),
            (registry@, directive_views(directives@)) == replay(
                old(registry)@,
                all.take(it.index() as int),
                current_time,
                fallback_color,
                slots_named(directive_views(directives@)),
            ),
    {
        let ghost done = directive_views(directives@);
        let slot = match registry.slot_of(&command, current_time) {
            Some(known) => known,
            None => request_id(),
        };
        let directive = registry.settle(command, current_time, fallback_color, slot);
        directives.push(directive);
        proof {
            let next = all.take(it.index() + 1);
            let now_done = directive_views(directives@);
            assert(next.drop_last() =~= all.take(it.index() as int));
            assert(next.last() == command@);
            assert(now_done =~= done.push(directive@));
            assert(slots_named(now_done).drop_last() =~= slots_named(done));
            assert(slots_named(now_done).last() == directive@.id);
        }
    }
    proof {
        assert(all.take(all.len() as int) =~= all);
        let done = directive_views(directives@);
        assert forall|earlier: int, later: int|
            0 <= earlier < later < taken.len() && (#[trigger] taken[earlier])@ is Refresh
                && (#[trigger] taken[later])@ is Refresh && taken[earlier]@->Refresh_key
                == taken[later]@->Refresh_key implies {
            &&& directives@[later]@.id == directives@[earlier]@.id
            &&& !directives@[later]@.fresh
            &&& directives@[later]@.content == content_of(
                taken[later]@,
                current_time,
                fallback_color,
            )
        } by {
            lemma_later_refresh_wins(
                old(registry)@,
                all,
                current_time,
                fallback_color,
                slots_named(done),
                earlier,
                later,
            );
            assert(done[later] == directives@[later]@);
            assert(done[earlier] == directives@[earlier]@);
        }
    }
    directives
}

} // verus!
