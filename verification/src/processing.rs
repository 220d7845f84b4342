//! What the server decides between two waits: how a login ends, which player
//! a command comes from, what a command or a tick changes, and what is to be
//! sent down which channel afterwards. Looking a player up, waiting, and
//! sending are the caller's part.

use crate::chance::fresh_uuid;
use crate::game::{commanded, sweep_messages, swept, RocketJamApp};
use crate::messages::{ClientMessageView, ToBackend, ToBackendEnvelope};
use crate::round::UserId;
use crate::sessions::{
    all_deliveries, lookup, put, supersession, undelivered, ClientBroadcaster, ClientView,
    Delivery, Dispatch, DispatchView, EntryView,
};
use crate::user::{User, UserView};
use vstd::prelude::*;

verus! {

/// Why a command is dropped before it reaches the game.
#[derive(Clone, Copy, Debug, PartialEq, Eq, Structural)]
pub enum Rejection {
    /// No session is filed under the command's token.
    UnknownToken,
    /// The session's player has no record.
    UnknownUser { user_id: UserId },
}

/// Finds the player a command comes from: the player of the session filed
/// under the command's token.
pub fn resolve_session(broadcaster: &ClientBroadcaster, envelope: &ToBackendEnvelope) -> (outcome:
    Result<UserId, Rejection>)
    ensures
        match lookup(broadcaster@, envelope.token@) {
            Some(client) => outcome == Ok::<UserId, Rejection>(client.user_id),
            None => outcome == Err::<UserId, Rejection>(Rejection::UnknownToken),
        },
{
    match broadcaster.get(&envelope.token) {
        Some(client) => Ok(client.user_id),
        None => Err(Rejection::UnknownToken),
    }
}

/// What a command does once its player has been looked up: `found` is the
/// record of player `user_id`, if there is one. Without a record the command
/// is dropped. With one it is applied to the game, and the messages that
/// follow are delivered: returned are the envelopes with their channels, and
/// the players whose messages reach no session.
pub fn process_action(
    app: &mut RocketJamApp,
    broadcaster: &ClientBroadcaster,
    user_id: UserId,
    found: Option<User>,
    to_backend: ToBackend,
) -> (outcome: Result<Delivery, Rejection>)
    requires
        old(app)@.within_limits(),
    ensures
        match found {
            Some(user) => outcome matches Ok(delivery) && exists|
                messages: Seq<ClientMessageView>,
            |
                #[trigger] commanded(old(app)@, final(app)@, user.id, to_backend@, messages)
                    && delivery.dispatches.deep_view() == all_deliveries(broadcaster@, messages)
                    && delivery.undelivered@ == undelivered(broadcaster@, messages),
            None => outcome matches Err(rejection) && rejection == (Rejection::UnknownUser {
                user_id,
            }) && final(app)@ == old(app)@,
        },
        old(app)@.wf() ==> final(app)@.wf(),
{
    match found {
        None => Err(Rejection::UnknownUser { user_id }),
        Some(user) => {
            let to_clients = app.update(&user, to_backend);
            Ok(broadcaster.deliver(to_clients))
        },
    }
}

/// Lets one tick pass over the game and delivers the messages that follow:
/// returned are the envelopes with their channels, and the players whose
/// messages reach no session.
pub fn game_tick(app: &mut RocketJamApp, broadcaster: &ClientBroadcaster) -> (delivery: Delivery)
    requires
        old(app)@.within_limits(),
    ensures
        swept(old(app)@, final(app)@),
        delivery.dispatches.deep_view() == all_deliveries(
            broadcaster@,
            sweep_messages(old(app)@, final(app)@),
        ),
        delivery.undelivered@ == undelivered(
            broadcaster@,
            sweep_messages(old(app)@, final(app)@),
        ),
        old(app)@.wf() ==> final(app)@.wf(),
{
    let msgs = app.tick();
    broadcaster.deliver(msgs)
}

/// How a login ended.
#[derive(Debug, PartialEq)]
pub enum LoginResponse {
    Success(LoginSuccessDetails),
    Failure(LoginFailureDetails),
}

/// What a client learns from a login that succeeded.
#[derive(Debug, PartialEq)]
pub struct LoginSuccessDetails {
    pub token: String,
    pub username: String,
}

/// What a client learns from a login that failed.
#[derive(Debug, PartialEq)]
pub struct LoginFailureDetails {
    pub msg: String,
}

/// Model of a [`LoginResponse`].
pub enum LoginResponseView {
    Success { token: Seq<char>, username: Seq<char> },
    Failure { msg: Seq<char> },
}

impl View for LoginResponse {
    type V = LoginResponseView;

    open spec fn view(&self) -> LoginResponseView {
        match self {
            LoginResponse::Success(details) => LoginResponseView::Success {
                token: details.token@,
                username: details.username@,
            },
            LoginResponse::Failure(details) => LoginResponseView::Failure { msg: details.msg@ },
        }
    }
}

/// The login of the player with record `found` succeeds with `password`.
pub open spec fn login_succeeds(found: Option<UserView>, password: Seq<char>) -> bool {
    found matches Some(user) && user.hashed_password == password
}

/// How a login ends that would be given `token`: a player whose record was
/// found and whose password is right gets the token and a new session
/// without a channel; the others are told why not.
pub open spec fn logged_in(
    before: Seq<EntryView>,
    after: Seq<EntryView>,
    found: Option<UserView>,
    password: Seq<char>,
    token: Seq<char>,
    response: LoginResponseView,
    dispatches: Seq<DispatchView>,
) -> bool {
    match found {
        Some(user) => if user.hashed_password == password {
            &&& response == (LoginResponseView::Success { token, username: user.username })
            &&& after == put(before, token, ClientView { token, user_id: user.id, sender: None })
            &&& dispatches == supersession(before, token)
        } else {
            &&& response == (LoginResponseView::Failure { msg: "wrong pw"@ })
            &&& after == before
            &&& dispatches == Seq::<DispatchView>::empty()
        },
        None => {
            &&& response == (LoginResponseView::Failure { msg: "not found"@ })
            &&& after == before
            &&& dispatches == Seq::<DispatchView>::empty()
        },
    }
}

/// The record's model, where there is a record.
pub open spec fn record_view(found: Option<User>) -> Option<UserView> {
    match found {
        Some(user) => Some(user@),
        None => None,
    }
}

/// Ends a login that is to be given `token` if it succeeds: `found` is the
/// record stored under the name given, if any. On success a session without
/// a channel is filed under the token; should a session with a channel have
/// been filed there, the notice for that channel is returned.
pub fn login_with_token(
    broadcaster: &mut ClientBroadcaster,
    found: Option<User>,
    password: &String,
    token: String,
) -> (outcome: (LoginResponse, Vec<Dispatch>))
    ensures
        logged_in(
            old(broadcaster)@,
            final(broadcaster)@,
            record_view(found),
            password@,
            token@,
            outcome.0@,
            outcome.1.deep_view(),
        ),
        old(broadcaster).wf() ==> final(broadcaster).wf(),
{
    match found {
        Some(user) => {
            if user.hashed_password == *password {
                let dispatches = broadcaster.register_or_supersede(token.clone(), user.id);
                (
                    LoginResponse::Success(LoginSuccessDetails { token, username: user.username }),
                    dispatches,
                )
            } else {
                let none: Vec<Dispatch> = Vec::new();
                assert(none.deep_view() =~= Seq::<DispatchView>::empty());
                (
                    LoginResponse::Failure(LoginFailureDetails { msg: "wrong pw".to_owned() }),
                    none,
                )
            }
        },
        None => {
            let none: Vec<Dispatch> = Vec::new();
            assert(none.deep_view() =~= Seq::<DispatchView>::empty());
            (LoginResponse::Failure(LoginFailureDetails { msg: "not found".to_owned() }), none)
        },
    }
}

/// Ends a login: as `login_with_token`, with a token drawn at random for
/// the login that succeeds.
pub fn login(broadcaster: &mut ClientBroadcaster, found: Option<User>, password: &String) -> (outcome:
    (LoginResponse, Vec<Dispatch>))
    ensures
        exists|token: Seq<char>| #[trigger]
            logged_in(
                old(broadcaster)@,
                final(broadcaster)@,
                record_view(found),
                password@,
                token,
                outcome.0@,
                outcome.1.deep_view(),
            ),
        old(broadcaster).wf() ==> final(broadcaster).wf(),
{
    let succeeds = match &found {
        Some(user) => user.hashed_password == *password,
        None => false,
    };
    let token = if succeeds {
        fresh_uuid()
    } else {
        String::new()
    };
    login_with_token(broadcaster, found, password, token)
}

} // verus!
