//! The commands that call sites send, and the bounded queue that carries
//! them to the one consumer that drains it once per tick.

use crate::site::{site_label, InvocationSiteKey, SiteView};
use vstd::prelude::*;

verus! {

/// What a call site asks for. `C` is the colour of the renderer.
pub enum Command<C> {
    /// Update in place, or add, the message printed from the given site.
    Refresh { key: InvocationSiteKey, color: Option<C>, text: String, timeout: u64 },
    /// Always add the message to the screen.
    Push { color: Option<C>, text: String, timeout: u64 },
}

/// A command as contracts see it: the call site by its view and the text
/// as a sequence of characters.
pub enum CommandView<C> {
    Refresh { key: SiteView, color: Option<C>, text: Seq<char>, timeout: u64 },
    Push { color: Option<C>, text: Seq<char>, timeout: u64 },
}

impl<C> View for Command<C> {
    type V = CommandView<C>;

    open spec fn view(&self) -> CommandView<C> {
        match *self {
            Command::Refresh { key, color, text, timeout } => CommandView::Refresh {
                key: key@,
                color,
                text: text@,
                timeout,
            },
            Command::Push { color, text, timeout } => CommandView::Push {
                color,
                text: text@,
                timeout,
            },
        }
    }
}

impl<C> CommandView<C> {
    /// The colour that the command asks for, if it asks for one.
    pub open spec fn color(self) -> Option<C> {
        match self {
            CommandView::Refresh { color, .. } => color,
            CommandView::Push { color, .. } => color,
        }
    }

    /// The text that the command carries.
    pub open spec fn text(self) -> Seq<char> {
        match self {
            CommandView::Refresh { text, .. } => text,
            CommandView::Push { text, .. } => text,
        }
    }

    /// For how long the message is to stay, from the time it is drained.
    pub open spec fn timeout(self) -> u64 {
        match self {
            CommandView::Refresh { timeout, .. } => timeout,
            CommandView::Push { timeout, .. } => timeout,
        }
    }
}

/// The views of the commands of a vector, in their order.
pub open spec fn command_views<C>(commands: Seq<Command<C>>) -> Seq<CommandView<C>> {
    Seq::new(commands.len(), |i: int| commands[i]@)
}

/// The text of a message: the call site's label, a space, what was said,
/// and a line break.
pub open spec fn line_text(site: SiteView, said: Seq<char>) -> Seq<char> {
    site_label(site) + seq![' '] + said + seq!['\n']
}

/// Writes the text of a message sent from `key` that says `said`.
fn compose(key: &InvocationSiteKey, said: &str) -> (text: String)
    ensures
        text@ == line_text(key@, said@),
{
    proof {
        reveal_strlit(" ");
        reveal_strlit("\n");
    }
    let mut text = key.to_string();
    text.append(" ");
    text.append(said);
    text.append("\n");
    assert(text@ =~= line_text(key@, said@));
    text
}

impl<C> Command<C> {
    /// The command that refreshes the message of the call site `key` with
    /// what was `said`.
    pub fn refresh(key: InvocationSiteKey, said: &str, timeout: u64, color: Option<C>) -> (command:
        Self)
        ensures
            command@ == (CommandView::Refresh {
                key: key@,
                color,
                text: line_text(key@, said@),
                timeout,
            }),
    {
        let text = compose(&key, said);
        Command::Refresh { key, color, text, timeout }
    }

    /// The command that adds a message of its own for what was `said` at
    /// the call site `key`.
    pub fn push(key: &InvocationSiteKey, said: &str, timeout: u64, color: Option<C>) -> (command:
        Self)
        ensures
            command@ == (CommandView::Push { color, text: line_text(key@, said@), timeout }),
    {
        let text = compose(key, said);
        Command::Push { color, text, timeout }
    }
}

/// How many commands the queue holds at most between two drains.
pub const MAX_LINES: usize = 4096;

/// Why a command was not taken.
#[derive(Debug, Clone, Copy, PartialEq, Eq)]
pub enum SendError {
    /// The queue holds `MAX_LINES` commands that were not drained yet.
    Full,
}

/// Queues the text to display on the screen: at most [`MAX_LINES`]
/// commands, handed to the consumer in the order in which they were sent.
pub struct CommandChannels<C> {
    queued: Vec<Command<C>>,
}

impl<C> View for CommandChannels<C> {
    type V = Seq<CommandView<C>>;

    closed spec fn view(&self) -> Seq<CommandView<C>> {
        command_views(self.queued@)
    }
}

impl<C> CommandChannels<C> {
    /// The invariant of the queue: it never holds more than its capacity.
    pub open spec fn well_formed(&self) -> bool {
        self@.len() <= MAX_LINES
    }

    /// The empty queue.
    pub fn new() -> (channels: Self)
        ensures
            channels.well_formed(),
            channels@ == Seq::<CommandView<C>>::empty(),
    {
        let channels = CommandChannels { queued: Vec::new() };
        assert(channels@ =~= Seq::<CommandView<C>>::empty());
        channels
    }

    /// Puts `command` at the end of the queue, unless the queue is full.
    pub fn send(&mut self, command: Command<C>) -> (sent: Result<(), SendError>)
        requires
            old(self).well_formed(),
        ensures
            final(self).well_formed(),
            old(self)@.len() < MAX_LINES ==> sent is Ok && final(self)@ == old(self)@.push(
                command@,
            ),
            old(self)@.len() >= MAX_LINES ==> sent == Err::<(), SendError>(SendError::Full)
                && final(self)@ == old(self)@,
    {
        if self.queued.len() >= MAX_LINES {
            return Err(SendError::Full);
        }
        self.queued.push(command);
        assert(self@ =~= old(self)@.push(command@));
        Ok(())
    }

    /// Queues a command that refreshes the message of the call site `key`
    /// with the text that `text` gives. Fails where the queue is full.
    pub fn refresh_text(
        &mut self,
        key: InvocationSiteKey,
        text: impl FnOnce() -> String,
        timeout: u64,
        color: Option<C>,
    ) -> (sent: Result<(), SendError>)
        requires
            old(self).well_formed(),
            text.requires(()),
        ensures
            final(self).well_formed(),
            sent is Ok <==> old(self)@.len() < MAX_LINES,
            sent is Err ==> sent == Err::<(), SendError>(SendError::Full) && final(self)@ == old(
                self,
            )@,
            sent is Ok ==> exists|said: String|
                {
                    &&& #[trigger] text.ensures((), said)
                    &&& final(self)@ == old(self)@.push(
                        CommandView::Refresh {
                            key: key@,
                            color,
                            text: line_text(key@, said@),
                            timeout,
                        },
                    )
                },
    {
        let said = text();
        let command = Command::refresh(key, said.as_str(), timeout, color);
        self.send(command)
    }

    /// Queues a command that adds a message of its own, with the text that
    /// `text` gives, for the call site `key`. Fails where the queue is full.
    pub fn push_text(
        &mut self,
        key: InvocationSiteKey,
        text: impl FnOnce() -> String,
        timeout: u64,
        color: Option<C>,
    ) -> (sent: Result<(), SendError>)
        requires
            old(self).well_formed(),
            text.requires(()),
        ensures
            final(self).well_formed(),
            sent is Ok <==> old(self)@.len() < MAX_LINES,
            sent is Err ==> sent == Err::<(), SendError>(SendError::Full) && final(self)@ == old(
                self,
            )@,
            sent is Ok ==> exists|said: String|
                {
                    &&& #[trigger] text.ensures((), said)
                    &&& final(self)@ == old(self)@.push(
                        CommandView::Push { color, text: line_text(key@, said@), timeout },
                    )
                },
    {
        let said = text();
        let command = Command::push(&key, said.as_str(), timeout, color);
        self.send(command)
    }

    /// Takes every queued command out of the queue, in the order in which
    /// they were sent.
    pub fn drain(&mut self) -> (commands: Vec<Command<C>>)
        ensures
            final(self).well_formed(),
            final(self)@ == Seq::<CommandView<C>>::empty(),
            command_views(commands@) == old(self)@,
    {
        let mut commands: Vec<Command<C>> = Vec::new();
        std::mem::swap(&mut commands, &mut self.queued);
        assert(self@ =~= Seq::<CommandView<C>>::empty());
        commands
    }
}

} // verus!
