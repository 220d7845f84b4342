//! The registry of client sessions: which session token belongs to which
//! player, and down which push channel the session is reached.
//!
//! A channel is known here by a handle only. Every function that has
//! something to send returns the envelopes together with the handles of the
//! channels they go down; sending them is the caller's part.

use crate::messages::{
    ClientMessage, ClientMessageView, ToClientEnvelope, ToClientEnvelopeView, ToClientView,
};
use crate::round::UserId;
use crate::seqs::{
    lemma_deep_view_add, lemma_deep_view_push, lemma_filter_none, lemma_filter_origin,
};
use vstd::prelude::*;

verus! {

/// The handle of a push channel.
pub type ChannelId = u64;

/// An envelope and the channel it is to go down.
pub type Dispatch = (ChannelId, ToClientEnvelope);

/// Model of a [`Dispatch`].
pub type DispatchView = (ChannelId, ToClientEnvelopeView);

/// A session: its token, its player, and its push channel once one is open.
#[derive(Debug, PartialEq)]
pub struct Client {
    pub token: String,
    pub user_id: i32,
    pub sender: Option<ChannelId>,
}

/// Model of a [`Client`].
pub struct ClientView {
    pub token: Seq<char>,
    pub user_id: i32,
    pub sender: Option<ChannelId>,
}

impl View for Client {
    type V = ClientView;

    open spec fn view(&self) -> ClientView {
        ClientView { token: self.token@, user_id: self.user_id, sender: self.sender }
    }
}

impl DeepView for Client {
    type V = ClientView;

    open spec fn deep_view(&self) -> ClientView {
        self@
    }
}

impl Clone for Client {
    fn clone(&self) -> (copy: Self)
        ensures
            copy@ == self@,
    {
        Client { token: self.token.clone(), user_id: self.user_id, sender: self.sender }
    }
}

/// Why a session could not be served.
#[derive(Clone, Copy, Debug, PartialEq, Eq, Structural)]
pub enum SessionError {
    /// No session is registered under the token.
    UnknownToken,
    /// The channel is the push channel of a session already.
    ChannelInUse,
}

/// Model of the registry's entries: the token a session is filed under, and
/// the session.
pub type EntryView = (Seq<char>, ClientView);

/// `i` is the place of the first session filed under `token`.
pub open spec fn first_session_at(entries: Seq<EntryView>, token: Seq<char>, i: int) -> bool {
    &&& 0 <= i < entries.len()
    &&& entries[i].0 == token
    &&& forall|j: int| 0 <= j < i ==> (#[trigger] entries[j]).0 != token
}

/// The place of the session filed under `token`, if there is one.
pub open spec fn position(entries: Seq<EntryView>, token: Seq<char>) -> Option<int> {
    if exists|i: int| first_session_at(entries, token, i) {
        Some(choose|i: int| first_session_at(entries, token, i))
    } else {
        None
    }
}

/// The session filed under `token`, if there is one.
pub open spec fn lookup(entries: Seq<EntryView>, token: Seq<char>) -> Option<ClientView> {
    match position(entries, token) {
        Some(i) => Some(entries[i].1),
        None => None,
    }
}

/// The entries after `client` has been filed under `token`: in the place of
/// the session that was filed there, or else behind all others.
pub open spec fn put(entries: Seq<EntryView>, token: Seq<char>, client: ClientView) -> Seq<
    EntryView,
> {
    match position(entries, token) {
        Some(i) => entries.update(i, (token, client)),
        None => entries.push((token, client)),
    }
}

/// The notice that goes down the channel of the session filed under `token`
/// when that session is replaced: none if there is no such session, or if it
/// has no channel.
pub open spec fn supersession(entries: Seq<EntryView>, token: Seq<char>) -> Seq<DispatchView> {
    match lookup(entries, token) {
        Some(client) => match client.sender {
            Some(channel) => seq![(channel, ToClientEnvelopeView::SuperSeeded)],
            None => Seq::empty(),
        },
        None => Seq::empty(),
    }
}

/// The session with `channel` as its push channel.
pub open spec fn attached(client: ClientView, channel: ChannelId) -> ClientView {
    ClientView { token: client.token, user_id: client.user_id, sender: Some(channel) }
}

/// The test whether a session belongs to `user` and has a push channel.
pub open spec fn listens(user: UserId) -> spec_fn(EntryView) -> bool {
    |entry: EntryView| entry.1.user_id == user && entry.1.sender is Some
}

/// What is sent when `message` is delivered to `user`: one copy down the
/// channel of every session of that player that has one, in the order of the
/// registry.
pub open spec fn deliveries(entries: Seq<EntryView>, user: UserId, message: ToClientView) -> Seq<
    DispatchView,
> {
    entries.filter(listens(user)).map_values(
        |entry: EntryView| (entry.1.sender->Some_0, ToClientEnvelopeView::AppMsg(message)),
    )
}

/// What is sent when `messages` are delivered, one after the other.
pub open spec fn all_deliveries(entries: Seq<EntryView>, messages: Seq<ClientMessageView>) -> Seq<
    DispatchView,
> {
    Seq::new(messages.len(), |i: int| deliveries(entries, messages[i].0, messages[i].1)).flatten()
}

/// The test whether a message reaches no session: nothing is sent when it is
/// delivered.
pub open spec fn goes_nowhere(entries: Seq<EntryView>) -> spec_fn(ClientMessageView) -> bool {
    |message: ClientMessageView| deliveries(entries, message.0, message.1).len() == 0
}

/// The players of those among `messages` that reach no session, in the order
/// of the messages.
pub open spec fn undelivered(entries: Seq<EntryView>, messages: Seq<ClientMessageView>) -> Seq<
    UserId,
> {
    messages.filter(goes_nowhere(entries)).map_values(|message: ClientMessageView| message.0)
}

/// Some session of `user` has a push channel.
pub open spec fn has_listener(entries: Seq<EntryView>, user: UserId) -> bool {
    exists|i: int| 0 <= i < entries.len() && listens(user)(#[trigger] entries[i])
}

/// What a delivery comes to: the envelopes with their channels, and the
/// players whose messages reached no session.
#[derive(Debug, PartialEq)]
pub struct Delivery {
    pub dispatches: Vec<Dispatch>,
    pub undelivered: Vec<UserId>,
}

/// Some session has `channel` as its push channel.
pub open spec fn uses(entries: Seq<EntryView>, channel: ChannelId) -> bool {
    exists|i: int| 0 <= i < entries.len() && (#[trigger] entries[i]).1.sender == Some(channel)
}

/// No two sessions are filed under the same token.
pub open spec fn tokens_distinct(entries: Seq<EntryView>) -> bool {
    forall|i: int, j: int|
        0 <= i < j < entries.len() ==> (#[trigger] entries[i]).0 != (#[trigger] entries[j]).0
}

/// No two sessions have the same push channel.
pub open spec fn channels_distinct(entries: Seq<EntryView>) -> bool {
    forall|i: int, j: int|
        0 <= i < j < entries.len() && (#[trigger] entries[i]).1.sender is Some
            ==> entries[i].1.sender != (#[trigger] entries[j]).1.sender
}

/// A session with push channel `sender` can be filed under `token` without
/// two sessions sharing a channel: it has no channel, or no session filed
/// under another token has that channel.
pub open spec fn channel_free_for(
    entries: Seq<EntryView>,
    token: Seq<char>,
    sender: Option<ChannelId>,
) -> bool {
    sender is Some ==> forall|i: int|
        0 <= i < entries.len() && (#[trigger] entries[i]).0 != token ==> entries[i].1.sender
            != sender
}

/// The sessions, each filed under a token.
pub struct ClientBroadcaster {
    clients_by_token: Vec<(String, Client)>,
}

impl View for ClientBroadcaster {
    type V = Seq<EntryView>;

    closed spec fn view(&self) -> Seq<EntryView> {
        self.clients_by_token.deep_view()
    }
}

/// Looking one session further, for what a delivery sends.
pub proof fn lemma_deliveries_step(
    entries: Seq<EntryView>,
    i: int,
    user: UserId,
    message: ToClientView,
)
    requires
        0 <= i < entries.len(),
    ensures
        deliveries(entries.take(i + 1), user, message) == if entries[i].1.user_id == user
            && entries[i].1.sender is Some {
            deliveries(entries.take(i), user, message).push(
                (entries[i].1.sender->Some_0, ToClientEnvelopeView::AppMsg(message)),
            )
        } else {
            deliveries(entries.take(i), user, message)
        },
{
    reveal(Seq::filter);
    let longer = entries.take(i + 1);
    assert(longer.drop_last() =~= entries.take(i));
    assert(longer.last() == entries[i]);
    if entries[i].1.user_id == user && entries[i].1.sender is Some {
        assert(deliveries(longer, user, message) =~= deliveries(
            entries.take(i),
            user,
            message,
        ).push((entries[i].1.sender->Some_0, ToClientEnvelopeView::AppMsg(message))));
    }
}

impl ClientBroadcaster {
    /// The invariant of the registry: no two sessions are filed under the
    /// same token, and no two sessions have the same push channel.
    pub open spec fn wf(&self) -> bool {
        tokens_distinct(self@) && channels_distinct(self@)
    }

    /// A registry without sessions.
    pub fn new() -> (broadcaster: Self)
        ensures
            broadcaster@ == Seq::<EntryView>::empty(),
            broadcaster.wf(),
    {
        let broadcaster = ClientBroadcaster { clients_by_token: Vec::new() };
        assert(broadcaster@ =~= Seq::<EntryView>::empty());
        broadcaster
    }

    fn find(&self, token: &String) -> (found: Option<usize>)
        ensures
            found matches Some(i) ==> i < self.clients_by_token@.len() && position(self@, token@)
                == Some(i as int),
            found is None ==> position(self@, token@) is None,
    {
        let mut i: usize = 0;
        while i < self.clients_by_token.len()
            invariant
                i <= self.clients_by_token.len(),
                forall|j: int| 0 <= j < i ==> (#[trigger] self@[j]).0 != token@,
            decreases self.clients_by_token.len() - i,
        {
            if self.clients_by_token[i].0 == *token {
                assert(first_session_at(self@, token@, i as int));
                return Some(i);
            }
            i += 1;
        }
        None
    }

    /// A copy of the session filed under `token`, if there is one.
    pub fn get(&self, token: &String) -> (found: Option<Client>)
        ensures
            match lookup(self@, token@) {
                Some(client) => found matches Some(copy) && copy@ == client,
                None => found is None,
            },
    {
        match self.find(token) {
            Some(i) => {
                assert(self@[i as int].1 == self.clients_by_token@[i as int].1@);
                Some(self.clients_by_token[i].1.clone())
            },
            None => None,
        }
    }

    /// A copy of the session filed under `token`, if there is one.
    pub fn get_user(&self, token: &String) -> (found: Option<Client>)
        ensures
            match lookup(self@, token@) {
                Some(client) => found matches Some(copy) && copy@ == client,
                None => found is None,
            },
    {
        self.get(token)
    }

    /// Files `client` under `token`, in the place of the session that was
    /// filed there, if any. The registry stays well formed if the session's
    /// channel is not that of a session filed under another token.
    pub fn update_client(&mut self, token: String, client: Client)
        ensures
            final(self)@ == put(old(self)@, token@, client@),
            old(self).wf() && channel_free_for(old(self)@, token@, client@.sender)
                ==> final(self).wf(),
    {
        let ghost before = self.clients_by_token;
        let entry = (token, client);
        match self.find(&entry.0) {
            Some(i) => {
                self.clients_by_token.set(i, entry);
                proof {
                    assert(self@ =~= old(self)@.update(i as int, (token@, client@))) by {
                        assert forall|k: int| 0 <= k < self@.len() implies self@[k] == old(
                            self,
                        )@.update(i as int, (token@, client@))[k] by {
                            if k != i {
                                assert(self.clients_by_token@[k] == before@[k]);
                            }
                        }
                    }
                }
            },
            None => {
                self.clients_by_token.push(entry);
                proof {
                    lemma_deep_view_push(before, self.clients_by_token, entry);
                }
            },
        }
        proof {
            if old(self).wf() && channel_free_for(old(self)@, token@, client@.sender) {
                lemma_put_keeps_tokens_distinct(old(self)@, token@, client@);
                lemma_put_keeps_channels_distinct(old(self)@, token@, client@);
            }
        }
    }

    /// Files `client` under `token`, in the place of the session that was
    /// filed there, if any. The registry stays well formed if the session's
    /// channel is not that of a session filed under another token.
    pub fn register_user(&mut self, token: &String, client: Client)
        ensures
            final(self)@ == put(old(self)@, token@, client@),
            old(self).wf() && channel_free_for(old(self)@, token@, client@.sender)
                ==> final(self).wf(),
    {
        self.update_client(token.clone(), client)
    }

    fn notice(&self, token: &String) -> (dispatches: Vec<Dispatch>)
        ensures
            dispatches.deep_view() == supersession(self@, token@),
    {
        let mut dispatches: Vec<Dispatch> = Vec::new();
        match self.find(token) {
            Some(i) => match self.clients_by_token[i].1.sender {
                Some(channel) => {
                    assert(self@[i as int].1 == self.clients_by_token@[i as int].1@);
                    dispatches.push((channel, ToClientEnvelope::SuperSeeded()));
                    assert(dispatches.deep_view() =~= seq![
                        (channel, ToClientEnvelopeView::SuperSeeded),
                    ]);
                },
                None => {
                    assert(self@[i as int].1 == self.clients_by_token@[i as int].1@);
                    assert(dispatches.deep_view() =~= Seq::<DispatchView>::empty());
                },
            },
            None => {
                assert(dispatches.deep_view() =~= Seq::<DispatchView>::empty());
            },
        }
        dispatches
    }

    /// Files a new session of `user_id`, without a push channel, under
    /// `token`. If a session with a channel was filed there, the notice that
    /// it has been replaced is returned for that channel.
    pub fn register_or_supersede(&mut self, token: String, user_id: UserId) -> (dispatches: Vec<
        Dispatch,
    >)
        ensures
            dispatches.deep_view() == supersession(old(self)@, token@),
            final(self)@ == put(
                old(self)@,
                token@,
                ClientView { token: token@, user_id, sender: None },
            ),
            old(self).wf() ==> final(self).wf(),
    {
        let dispatches = self.notice(&token);
        let client = Client { token: token.clone(), user_id, sender: None };
        self.update_client(token, client);
        dispatches
    }

    /// Whether some session has `channel` as its push channel.
    pub fn uses_channel(&self, channel: ChannelId) -> (used: bool)
        ensures
            used == uses(self@, channel),
    {
        let mut i: usize = 0;
        while i < self.clients_by_token.len()
            invariant
                i <= self.clients_by_token.len(),
                forall|j: int| 0 <= j < i ==> (#[trigger] self@[j]).1.sender != Some(channel),
            decreases self.clients_by_token.len() - i,
        {
            assert(self@[i as int].1 == self.clients_by_token@[i as int].1@);
            match self.clients_by_token[i].1.sender {
                Some(taken) => {
                    if taken == channel {
                        return true;
                    }
                },
                None => {},
            }
            i += 1;
        }
        false
    }

    /// Makes `channel` the push channel of the session filed under `token`.
    /// If the session had a channel before, the notice that it has been
    /// replaced is returned for that channel. Fails if no session is filed
    /// under `token`, and if `channel` is some session's channel already.
    pub fn attach_channel(&mut self, token: &String, channel: ChannelId) -> (outcome: Result<
        Vec<Dispatch>,
        SessionError,
    >)
        ensures
            match lookup(old(self)@, token@) {
                Some(client) => if uses(old(self)@, channel) {
                    outcome == Err::<Vec<Dispatch>, SessionError>(SessionError::ChannelInUse)
                        && final(self)@ == old(self)@
                } else {
                    outcome matches Ok(dispatches) && dispatches.deep_view() == supersession(
                        old(self)@,
                        token@,
                    ) && final(self)@ == put(old(self)@, token@, attached(client, channel))
                },
                None => outcome == Err::<Vec<Dispatch>, SessionError>(SessionError::UnknownToken)
                    && final(self)@ == old(self)@,
            },
            old(self).wf() ==> final(self).wf(),
    {
        match self.get(token) {
            Some(client) => {
                if self.uses_channel(channel) {
                    return Err(SessionError::ChannelInUse);
                }
                let dispatches = self.notice(token);
                let updated_client = Client {
                    token: client.token.clone(),
                    user_id: client.user_id,
                    sender: Some(channel),
                };
                self.update_client(token.clone(), updated_client);
                Ok(dispatches)
            },
            None => Err(SessionError::UnknownToken),
        }
    }

    /// Delivers a message to a player: returns one copy for the channel of
    /// every session of that player that has one. A player without such a
    /// session gets nothing.
    pub fn send_to_user(&self, message: ClientMessage) -> (dispatches: Vec<Dispatch>)
        ensures
            dispatches.deep_view() == deliveries(self@, message.0, message.1@),
    {
        let (user_id, to_client) = message;
        let mut dispatches: Vec<Dispatch> = Vec::new();
        let mut i: usize = 0;
        proof {
            reveal(Seq::filter);
            assert(self@.take(0) =~= Seq::empty());
            assert(dispatches.deep_view() =~= deliveries(self@.take(0), user_id, to_client@));
        }
        while i < self.clients_by_token.len()
            invariant
                i <= self.clients_by_token.len(),
                dispatches.deep_view() == deliveries(self@.take(i as int), user_id, to_client@),
            decreases self.clients_by_token.len() - i,
        {
            proof {
                lemma_deliveries_step(self@, i as int, user_id, to_client@);
            }
            let client = &self.clients_by_token[i].1;
            if client.user_id == user_id {
                match client.sender {
                    Some(channel) => {
                        let ghost before = dispatches;
                        let dispatch = (channel, ToClientEnvelope::AppMsg(to_client.clone()));
                        dispatches.push(dispatch);
                        proof {
                            lemma_deep_view_push(before, dispatches, dispatch);
                        }
                    },
                    None => {},
                }
            }
            i += 1;
        }
        assert(self@.take(self@.len() as int) =~= self@);
        dispatches
    }

    /// Whether some session of `user_id` has a push channel.
    pub fn reaches(&self, user_id: UserId) -> (reached: bool)
        ensures
            reached == has_listener(self@, user_id),
    {
        let mut i: usize = 0;
        while i < self.clients_by_token.len()
            invariant
                i <= self.clients_by_token.len(),
                forall|j: int| 0 <= j < i ==> !listens(user_id)(#[trigger] self@[j]),
            decreases self.clients_by_token.len() - i,
        {
            assert(self@[i as int].1 == self.clients_by_token@[i as int].1@);
            let client = &self.clients_by_token[i].1;
            if client.user_id == user_id && client.sender.is_some() {
                assert(listens(user_id)(self@[i as int]));
                return true;
            }
            i += 1;
        }
        false
    }

    /// The players of those among `messages` that reach no session, in the
    /// order of the messages.
    pub fn undelivered_players(&self, messages: &Vec<ClientMessage>) -> (players: Vec<UserId>)
        ensures
            players@ == undelivered(self@, messages.deep_view()),
    {
        let mut players: Vec<UserId> = Vec::new();
        let mut i: usize = 0;
        proof {
            reveal(Seq::filter);
            assert(messages.deep_view().take(0) =~= Seq::empty());
            assert(players@ =~= undelivered(self@, messages.deep_view().take(0)));
        }
        while i < messages.len()
            invariant
                i <= messages.len(),
                players@ == undelivered(self@, messages.deep_view().take(i as int)),
            decreases messages.len() - i,
        {
            proof {
                lemma_undelivered_step(self@, messages.deep_view(), i as int);
                lemma_no_listener_no_delivery(
                    self@,
                    messages.deep_view()[i as int].0,
                    messages.deep_view()[i as int].1,
                );
            }
            let user_id = messages[i].0;
            if !self.reaches(user_id) {
                players.push(user_id);
            }
            i += 1;
        }
        assert(messages.deep_view().take(messages@.len() as int) =~= messages.deep_view());
        players
    }

    /// Delivers messages one after the other: returns what `send_to_user`
    /// returns for each, in their order, and the players whose messages reach
    /// no session.
    pub fn deliver(&self, messages: Vec<ClientMessage>) -> (delivery: Delivery)
        ensures
            delivery.dispatches.deep_view() == all_deliveries(self@, messages.deep_view()),
            delivery.undelivered@ == undelivered(self@, messages.deep_view()),
    {
        let undelivered = self.undelivered_players(&messages);
        let dispatches = self.send_all(messages);
        Delivery { dispatches, undelivered }
    }

    /// Delivers messages one after the other: returns what `send_to_user`
    /// returns for each, in their order.
    pub fn send_all(&self, messages: Vec<ClientMessage>) -> (dispatches: Vec<Dispatch>)
        ensures
            dispatches.deep_view() == all_deliveries(self@, messages.deep_view()),
    {
        let ghost all = messages.deep_view();
        let mut dispatches: Vec<Dispatch> = Vec::new();
        let ghost mut parts: Seq<Seq<DispatchView>> = Seq::empty();
        let mut rest = messages;
        let mut i: usize = 0;
        assert(dispatches.deep_view() =~= parts.flatten());
        while i < rest.len()
            invariant
                i <= rest.len(),
                rest.deep_view() == all,
                parts.len() == i,
                forall|k: int|
                    0 <= k < i ==> #[trigger] parts[k] == deliveries(self@, all[k].0, all[k].1),
                dispatches.deep_view() == parts.flatten(),
            decreases rest.len() - i,
        {
            let message = (rest[i].0, rest[i].1.clone());
            let mut part = self.send_to_user(message);
            let ghost part_before = part;
            let ghost dispatches_before = dispatches;
            dispatches.append(&mut part);
            proof {
                lemma_deep_view_add(dispatches_before, part_before, dispatches);
                parts.lemma_flatten_push(part_before.deep_view());
                parts = parts.push(part_before.deep_view());
            }
            i += 1;
        }
        proof {
            assert(parts =~= Seq::new(all.len(), |k: int| deliveries(self@, all[k].0, all[k].1)));
        }
        dispatches
    }
}

/// Nothing is sent for a player exactly if no session of the player has a
/// push channel.
pub proof fn lemma_no_listener_no_delivery(
    entries: Seq<EntryView>,
    user: UserId,
    message: ToClientView,
)
    ensures
        deliveries(entries, user, message).len() == 0 <==> !has_listener(entries, user),
{
    if has_listener(entries, user) {
        let i = choose|i: int| 0 <= i < entries.len() && listens(user)(#[trigger] entries[i]);
        entries.lemma_filter_contains(listens(user), i);
        let found = entries.filter(listens(user));
        let j = choose|j: int| 0 <= j < found.len() && found[j] == entries[i];
    } else {
        lemma_filter_none(entries, listens(user));
    }
}

/// Looking one message further, for the players that are not reached.
pub proof fn lemma_undelivered_step(
    entries: Seq<EntryView>,
    messages: Seq<ClientMessageView>,
    i: int,
)
    requires
        0 <= i < messages.len(),
    ensures
        undelivered(entries, messages.take(i + 1)) == if deliveries(
            entries,
            messages[i].0,
            messages[i].1,
        ).len() == 0 {
            undelivered(entries, messages.take(i)).push(messages[i].0)
        } else {
            undelivered(entries, messages.take(i))
        },
{
    reveal(Seq::filter);
    let longer = messages.take(i + 1);
    assert(longer.drop_last() =~= messages.take(i));
    assert(longer.last() == messages[i]);
    if goes_nowhere(entries)(messages[i]) {
        assert(undelivered(entries, longer) =~= undelivered(entries, messages.take(i)).push(
            messages[i].0,
        ));
    }
}

/// Filing a session keeps the tokens distinct.
pub proof fn lemma_put_keeps_tokens_distinct(
    entries: Seq<EntryView>,
    token: Seq<char>,
    client: ClientView,
)
    requires
        tokens_distinct(entries),
    ensures
        tokens_distinct(put(entries, token, client)),
{
    let after = put(entries, token, client);
    match position(entries, token) {
        Some(i) => {
            assert(first_session_at(entries, token, i));
            assert forall|a: int, b: int| 0 <= a < b < after.len() implies (#[trigger] after[a]).0
                != (#[trigger] after[b]).0 by {
                assert(after[a].0 == entries[a].0);
                assert(after[b].0 == entries[b].0);
            }
        },
        None => {
            assert forall|a: int, b: int| 0 <= a < b < after.len() implies (#[trigger] after[a]).0
                != (#[trigger] after[b]).0 by {
                if b == entries.len() {
                    if entries[a].0 == token {
                        lemma_position_found(entries, token, a);
                    }
                } else {
                    assert(after[a] == entries[a]);
                    assert(after[b] == entries[b]);
                }
            }
        },
    }
}

/// A token under which some session is filed has a place.
pub proof fn lemma_position_found(entries: Seq<EntryView>, token: Seq<char>, a: int)
    requires
        0 <= a < entries.len(),
        entries[a].0 == token,
    ensures
        position(entries, token) is Some,
    decreases a,
{
    if forall|j: int| 0 <= j < a ==> (#[trigger] entries[j]).0 != token {
        assert(first_session_at(entries, token, a));
    } else {
        let j = choose|j: int| 0 <= j < a && (#[trigger] entries[j]).0 == token;
        lemma_position_found(entries, token, j);
    }
}

/// A delivery sends the message, and only down channels that sessions of
/// the registry have.
pub proof fn lemma_deliveries_reach_open_channels(
    entries: Seq<EntryView>,
    user: UserId,
    message: ToClientView,
    d: int,
)
    requires
        0 <= d < deliveries(entries, user, message).len(),
    ensures
        uses(entries, deliveries(entries, user, message)[d].0),
        deliveries(entries, user, message)[d].1 == ToClientEnvelopeView::AppMsg(message),
{
    let origin = lemma_filter_origin(entries, listens(user));
    entries.lemma_filter_pred(listens(user), d);
    assert(entries[origin[d]] == entries.filter(listens(user))[d]);
    assert(entries[origin[d]].1.sender == Some(deliveries(entries, user, message)[d].0));
}

/// A delivery sends one copy, and no more, down the channel of every session
/// of the player that has one.
pub proof fn lemma_one_copy_per_channel(
    entries: Seq<EntryView>,
    user: UserId,
    message: ToClientView,
    i: int,
)
    requires
        channels_distinct(entries),
        0 <= i < entries.len(),
        entries[i].1.user_id == user,
        entries[i].1.sender is Some,
    ensures
        exists|d: int|
            0 <= d < deliveries(entries, user, message).len() && #[trigger] deliveries(
                entries,
                user,
                message,
            )[d] == (entries[i].1.sender->Some_0, ToClientEnvelopeView::AppMsg(message)),
        forall|d: int, e: int|
            0 <= d < e < deliveries(entries, user, message).len() ==> (#[trigger] deliveries(
                entries,
                user,
                message,
            )[d]).0 != (#[trigger] deliveries(entries, user, message)[e]).0,
{
    let sent = deliveries(entries, user, message);
    let heard = entries.filter(listens(user));
    let origin = lemma_filter_origin(entries, listens(user));
    assert forall|d: int| 0 <= d < sent.len() implies (#[trigger] sent[d]).0
        == entries[origin[d]].1.sender->Some_0 && entries[origin[d]].1.sender is Some by {
        entries.lemma_filter_pred(listens(user), d);
        assert(entries[origin[d]] == heard[d]);
    }
    assert(listens(user)(entries[i]));
    let at = choose|d: int| 0 <= d < origin.len() && origin[d] == i;
    assert(sent[at] == (entries[i].1.sender->Some_0, ToClientEnvelopeView::AppMsg(message)));
    assert forall|d: int, e: int| 0 <= d < e < sent.len() implies (#[trigger] sent[d]).0 != (
    #[trigger] sent[e]).0 by {
        assert(origin[d] < origin[e]);
        assert(entries[origin[d]].1.sender != entries[origin[e]].1.sender);
    }
}

/// Filing a session brings no channel into use but the session's own.
pub proof fn lemma_put_opens_no_other_channel(
    entries: Seq<EntryView>,
    token: Seq<char>,
    client: ClientView,
    channel: ChannelId,
)
    requires
        !uses(entries, channel),
        client.sender != Some(channel),
    ensures
        !uses(put(entries, token, client), channel),
{
    let after = put(entries, token, client);
    if uses(after, channel) {
        let i = choose|i: int|
            0 <= i < after.len() && (#[trigger] after[i]).1.sender == Some(channel);
        match position(entries, token) {
            Some(p) => {
                assert(first_session_at(entries, token, p));
                if i != p {
                    assert(entries[i] == after[i]);
                }
            },
            None => {
                if i < entries.len() {
                    assert(entries[i] == after[i]);
                }
            },
        }
    }
}

/// Filing a session whose channel no session under another token has keeps
/// the channels apart.
pub proof fn lemma_put_keeps_channels_distinct(
    entries: Seq<EntryView>,
    token: Seq<char>,
    client: ClientView,
)
    requires
        tokens_distinct(entries),
        channels_distinct(entries),
        channel_free_for(entries, token, client.sender),
    ensures
        channels_distinct(put(entries, token, client)),
{
    let after = put(entries, token, client);
    match position(entries, token) {
        Some(p) => {
            assert(first_session_at(entries, token, p));
            assert forall|a: int, b: int|
                0 <= a < b < after.len() && (#[trigger] after[a]).1.sender is Some implies after[a].1.sender
                != (#[trigger] after[b]).1.sender by {
                if a == p {
                    assert(entries[b].0 != entries[p].0);
                    assert(after[b] == entries[b]);
                } else if b == p {
                    assert(entries[a].0 != entries[p].0);
                    assert(after[a] == entries[a]);
                } else {
                    assert(after[a] == entries[a]);
                    assert(after[b] == entries[b]);
                }
            }
        },
        None => {
            assert forall|a: int, b: int|
                0 <= a < b < after.len() && (#[trigger] after[a]).1.sender is Some implies after[a].1.sender
                != (#[trigger] after[b]).1.sender by {
                assert(after[a] == entries[a]);
                if b == entries.len() {
                    if entries[a].0 == token {
                        lemma_position_found(entries, token, a);
                    }
                } else {
                    assert(after[b] == entries[b]);
                }
            }
        },
    }
}

/// Supersession is exclusive. When a second channel is attached to a token
/// whose session has a channel, then exactly one notice goes down the first
/// channel, the first channel is in use no longer, and no delivery made from
/// then on sends anything down it.
pub proof fn lemma_supersession_is_exclusive(
    entries: Seq<EntryView>,
    token: Seq<char>,
    first: ChannelId,
    second: ChannelId,
    user: UserId,
    message: ToClientView,
)
    requires
        tokens_distinct(entries),
        channels_distinct(entries),
        lookup(entries, token) matches Some(client) && client.sender == Some(first),
        !uses(entries, second),
    ensures
        supersession(entries, token) == seq![(first, ToClientEnvelopeView::SuperSeeded)],
        !uses(put(entries, token, attached(lookup(entries, token)->Some_0, second)), first),
        forall|d: int|
            0 <= d < deliveries(
                put(entries, token, attached(lookup(entries, token)->Some_0, second)),
                user,
                message,
            ).len() ==> (#[trigger] deliveries(
                put(entries, token, attached(lookup(entries, token)->Some_0, second)),
                user,
                message,
            )[d]).0 != first,
{
    let p = position(entries, token)->Some_0;
    assert(first_session_at(entries, token, p));
    assert(entries[p].1.sender == Some(first));
    let after = put(entries, token, attached(lookup(entries, token)->Some_0, second));
    if uses(after, first) {
        let i = choose|i: int| 0 <= i < after.len() && (#[trigger] after[i]).1.sender == Some(first);
        if i != p {
            assert(entries[i] == after[i]);
            if i < p {
                assert(entries[i].1.sender != entries[p].1.sender);
            } else {
                assert(entries[p].1.sender != entries[i].1.sender);
            }
        }
    }
    assert forall|d: int| 0 <= d < deliveries(after, user, message).len() implies (
    #[trigger] deliveries(after, user, message)[d]).0 != first by {
        lemma_deliveries_reach_open_channels(after, user, message, d);
    }
}

} // verus!
