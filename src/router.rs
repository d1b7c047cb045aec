use vstd::prelude::*;
use crate::format::{format_leaderboard, render, sort_desc, entries};
use crate::store::{Store, top, upsert_rows};

verus! {

/// An inbound chat command.
pub enum Command {
    Start,
    Help,
    Leaderboard,
    Register { handle: String },
}

/// The failures the bot distinguishes.
#[derive(PartialEq, Eq, Structural, Clone, Copy, Debug)]
pub enum BotError {
    /// The sender has no public handle.
    IdentityMissing,
    /// A registration came without an external handle.
    EmptyArgument,
    /// The table could not be read or written.
    StorageError,
    /// An outbound message could not be delivered.
    SendError,
}

/// What the bot does in answer to one command.
pub enum Action {
    /// Send this text to the chat the command came from.
    Reply(String),
    /// Read the ranking (cut to the router's limit), format it and reply with it.
    ShowLeaderboard,
    /// Register `external_handle` for `handle`, then reply with the outcome.
    Register { handle: String, external_handle: String },
}

/// The mathematical form of an `Action`.
pub enum ActionView {
    Reply(Seq<char>),
    ShowLeaderboard,
    Register(Seq<char>, Seq<char>),
}

impl View for Action {
    type V = ActionView;

    open spec fn view(&self) -> ActionView {
        match self {
            Action::Reply(t) => ActionView::Reply(t@),
            Action::ShowLeaderboard => ActionView::ShowLeaderboard,
            Action::Register { handle, external_handle } => ActionView::Register(handle@, external_handle@),
        }
    }
}

/// What a tick of the broadcast timer does.
#[derive(PartialEq, Eq, Structural, Clone, Copy, Debug)]
pub enum Tick {
    /// No destination is known yet: nothing is sent.
    Skip,
    /// Send the leaderboard to this chat.
    Broadcast(i64),
}

pub open spec fn greeting_text() -> Seq<char> {
    "Hello, world!"@
}

pub open spec fn saved_greeting_text() -> Seq<char> {
    "Hello, world! Chat ID has been saved."@
}

pub open spec fn help_text() -> Seq<char> {
    "These commands are supported:\n\n/start — Say hello\n/help, /h, /? — Display this text.\n/leaderboard, /lb — Show the leaderboard.\n/register, /r — Register with your x-handle. Example: /register username"@
}

pub open spec fn error_text(e: BotError) -> Seq<char> {
    match e {
        BotError::IdentityMissing => "Something went wrong"@,
        BotError::EmptyArgument => "Please provide your X Handle"@,
        BotError::StorageError => "Something went wrong on our side, please try again later."@,
        BotError::SendError => "The message could not be delivered."@,
    }
}

pub open spec fn registered_text(x: Seq<char>) -> Seq<char> {
    "Registered with X Handle "@ + x + "."@
}

pub open spec fn sender_view(sender: Option<&str>) -> Option<Seq<char>> {
    match sender {
        Some(s) => Some(s@),
        None => None,
    }
}

/// The destination after a command: the first `/start` records its chat when
/// none is known; nothing else changes it.
pub open spec fn next_destination(dest: Option<i64>, cmd: Command, chat: i64) -> Option<i64> {
    match cmd {
        Command::Start => if dest.is_none() { Some(chat) } else { dest },
        _ => dest,
    }
}

/// The action for `cmd` from `sender` in `chat`, given the known destination.
pub open spec fn decision(dest: Option<i64>, cmd: Command, chat: i64, sender: Option<Seq<char>>) -> ActionView {
    match cmd {
        Command::Start => if dest.is_none() {
            ActionView::Reply(saved_greeting_text())
        } else {
            ActionView::Reply(greeting_text())
        },
        Command::Help => ActionView::Reply(help_text()),
        Command::Leaderboard => ActionView::ShowLeaderboard,
        Command::Register { handle } => match sender {
            None => ActionView::Reply(error_text(BotError::IdentityMissing)),
            Some(s) => if handle@.len() == 0 {
                ActionView::Reply(error_text(BotError::EmptyArgument))
            } else {
                ActionView::Register(s, handle@)
            },
        },
    }
}

/// The user-visible text for an error.
pub fn error_reply(e: BotError) -> (r: String)
    ensures
        r@ == error_text(e),
{
    match e {
        BotError::IdentityMissing => String::from_str("Something went wrong"),
        BotError::EmptyArgument => String::from_str("Please provide your X Handle"),
        BotError::StorageError => String::from_str("Something went wrong on our side, please try again later."),
        BotError::SendError => String::from_str("The message could not be delivered."),
    }
}

/// The reply to a registration of `external` once the write has `outcome`:
/// a confirmation echoing `external`, or the error's text.
pub fn registration_reply(outcome: Result<(), BotError>, external: &str) -> (r: String)
    ensures
        r@ == match outcome {
            Ok(()) => registered_text(external@),
            Err(e) => error_text(e),
        },
{
    match outcome {
        Ok(()) => {
            let mut t = String::from_str("Registered with X Handle ");
            t.append(external);
            t.append(".");
            t
        },
        Err(e) => error_reply(e),
    }
}

/// The command decisions: where scheduled broadcasts go and how long a ranking is.
pub struct Router {
    destination: Option<i64>,
    limit: Option<usize>,
}

impl Router {
    pub closed spec fn dest(&self) -> Option<i64> {
        self.destination
    }

    pub closed spec fn cap(&self) -> Option<usize> {
        self.limit
    }

    /// A router with a configured destination (if any) and ranking cap (if any).
    pub fn new(destination: Option<i64>, limit: Option<usize>) -> (r: Router)
        ensures
            r.dest() == destination,
            r.cap() == limit,
    {
        Router { destination, limit }
    }

    /// The chat that receives scheduled broadcasts, if known.
    pub fn destination(&self) -> (r: Option<i64>)
        ensures
            r == self.dest(),
    {
        self.destination
    }

    /// The number of entries a ranking is cut to, if any.
    pub fn limit(&self) -> (r: Option<usize>)
        ensures
            r == self.cap(),
    {
        self.limit
    }

    /// Decides the answer to `cmd`, sent by `sender` (its public handle, if it
    /// has one) in `chat`; a first `/start` records `chat` as the destination.
    pub fn decide(&mut self, cmd: &Command, chat: i64, sender: Option<&str>) -> (r: Action)
        ensures
            r@ == decision(old(self).dest(), *cmd, chat, sender_view(sender)),
            final(self).dest() == next_destination(old(self).dest(), *cmd, chat),
            final(self).cap() == old(self).cap(),
    {
        match cmd {
            Command::Start => {
                if self.destination.is_none() {
                    self.destination = Some(chat);
                    Action::Reply(String::from_str("Hello, world! Chat ID has been saved."))
                } else {
                    Action::Reply(String::from_str("Hello, world!"))
                }
            },
            Command::Help => Action::Reply(String::from_str(
                "These commands are supported:\n\n/start — Say hello\n/help, /h, /? — Display this text.\n/leaderboard, /lb — Show the leaderboard.\n/register, /r — Register with your x-handle. Example: /register username",
            )),
            Command::Leaderboard => Action::ShowLeaderboard,
            Command::Register { handle } => match sender {
                None => Action::Reply(error_reply(BotError::IdentityMissing)),
                Some(s) => {
                    if handle.as_str().unicode_len() == 0 {
                        Action::Reply(error_reply(BotError::EmptyArgument))
                    } else {
                        Action::Register { handle: String::from_str(s), external_handle: handle.clone() }
                    }
                },
            },
        }
    }

    /// A timer tick: broadcast to the destination, or skip while none is known.
    pub fn tick(&self) -> (r: Tick)
        ensures
            r == match self.dest() {
                Some(c) => Tick::Broadcast(c),
                None => Tick::Skip,
            },
    {
        match self.destination {
            Some(c) => Tick::Broadcast(c),
            None => Tick::Skip,
        }
    }
}

} // verus!
