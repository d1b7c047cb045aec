use vstd::prelude::*;
use crate::format::{render, render_entries};
use crate::router::{
    decision, next_destination, registered_text, error_text, registration_reply, sender_view,
    Action, ActionView, BotError, Command, Router,
};
use crate::store::{top, upsert_rows, Store};

verus! {

/// A bot whose table is held in memory: each command is decided by the router
/// and carried out on the store.
pub struct Service {
    pub router: Router,
    pub store: Store,
}

impl Service {
    pub fn new(router: Router, store: Store) -> (r: Service)
        ensures
            r.router == router,
            r.store == store,
    {
        Service { router, store }
    }

    /// The leaderboard text: the store's ranking, cut to the router's limit.
    pub fn leaderboard(&self) -> (r: String)
        ensures
            r@ == render(top(self.store@, self.router.cap())),
    {
        let ranked = self.store.top_n(self.router.limit());
        render_entries(&ranked)
    }

    /// The reply to `cmd`, sent by `sender` in `chat`. Only a registration with a
    /// sender and a non-empty external handle writes to the store.
    pub fn answer(&mut self, cmd: &Command, chat: i64, sender: Option<&str>) -> (r: String)
        requires
            old(self).store.wf(),
        ensures
            final(self).store.wf(),
            final(self).router.dest() == next_destination(old(self).router.dest(), *cmd, chat),
            final(self).router.cap() == old(self).router.cap(),
            match decision(old(self).router.dest(), *cmd, chat, sender_view(sender)) {
                ActionView::Reply(t) => r@ == t && final(self).store@ == old(self).store@,
                ActionView::ShowLeaderboard => r@ == render(top(old(self).store@, old(self).router.cap()))
                    && final(self).store@ == old(self).store@,
                ActionView::Register(h, x) => r@ == registered_text(x)
                    && final(self).store@ == upsert_rows(old(self).store@, h, x),
            },
            match *cmd {
                Command::Register { handle } => (sender.is_none() || handle@.len() == 0)
                    ==> final(self).store@ == old(self).store@,
                _ => final(self).store@ == old(self).store@,
            },
            match *cmd {
                Command::Register { handle } => {
                    &&& sender.is_none() ==> r@ == error_text(BotError::IdentityMissing)
                    &&& (sender.is_some() && handle@.len() == 0) ==> r@ == error_text(BotError::EmptyArgument)
                },
                _ => true,
            },
    {
        let action = self.router.decide(cmd, chat, sender);
        match action {
            Action::Reply(t) => t,
            Action::ShowLeaderboard => self.leaderboard(),
            Action::Register { handle, external_handle } => {
                self.store.upsert(handle.as_str(), external_handle.as_str());
                registration_reply(Ok(()), external_handle.as_str())
            },
        }
    }
}

} // verus!
