use rand::rngs::StdRng;
use rand::SeedableRng;
use rocket_jam::game::RocketJamApp;
use rocket_jam::messages::{ClientState, ToBackend, ToBackendEnvelope, ToClient, ToClientEnvelope};
use rocket_jam::presence::next_age;
use rocket_jam::processing::{
    game_tick, login, login_with_token, process_action, resolve_session, LoginFailureDetails,
    LoginResponse, LoginSuccessDetails, Rejection,
};
use rocket_jam::sessions::{Client, ClientBroadcaster, Delivery, SessionError};
use rocket_jam::user::User;

fn player(id: i32) -> User {
    User { id, username: format!("player{}", id), hashed_password: format!("secret{}", id) }
}

fn session(token: &str, user_id: i32, sender: Option<u64>) -> Client {
    Client { token: token.to_string(), user_id, sender }
}

fn hello(channel: u64) -> (u64, ToClientEnvelope) {
    (channel, ToClientEnvelope::AppMsg(ToClient::HelloClient))
}

#[test]
fn sessions_are_filed_under_tokens() {
    let mut broadcaster = ClientBroadcaster::new();
    assert_eq!(broadcaster.get(&"t1".to_string()), None);
    broadcaster.update_client("t1".to_string(), session("t1", 1, None));
    broadcaster.register_user(&"t2".to_string(), session("t2", 2, Some(7)));
    assert_eq!(broadcaster.get(&"t1".to_string()), Some(session("t1", 1, None)));
    assert_eq!(broadcaster.get_user(&"t2".to_string()), Some(session("t2", 2, Some(7))));
    assert_eq!(broadcaster.get(&"t3".to_string()), None);
    broadcaster.update_client("t1".to_string(), session("t1", 1, Some(3)));
    assert_eq!(broadcaster.get(&"t1".to_string()), Some(session("t1", 1, Some(3))));
    assert_eq!(broadcaster.get(&"t2".to_string()), Some(session("t2", 2, Some(7))));
}

#[test]
fn a_message_reaches_every_open_session_of_its_player() {
    let mut broadcaster = ClientBroadcaster::new();
    broadcaster.update_client("t1".to_string(), session("t1", 1, Some(10)));
    broadcaster.update_client("t2".to_string(), session("t2", 2, Some(20)));
    broadcaster.update_client("t3".to_string(), session("t3", 1, None));
    broadcaster.update_client("t4".to_string(), session("t4", 1, Some(40)));
    assert_eq!(broadcaster.send_to_user((1, ToClient::HelloClient)), vec![hello(10), hello(40)]);
    assert_eq!(broadcaster.send_to_user((2, ToClient::HelloClient)), vec![hello(20)]);
    assert!(broadcaster.send_to_user((3, ToClient::HelloClient)).is_empty());
    let both = vec![(2, ToClient::HelloClient), (1, ToClient::HelloClient)];
    assert_eq!(broadcaster.send_all(both), vec![hello(20), hello(10), hello(40)]);
    assert!(broadcaster.send_all(vec![]).is_empty());
}

#[test]
fn a_second_channel_supersedes_the_first() {
    let mut broadcaster = ClientBroadcaster::new();
    assert!(broadcaster.register_or_supersede("t1".to_string(), 1).is_empty());
    assert!(broadcaster.send_to_user((1, ToClient::HelloClient)).is_empty());
    assert_eq!(broadcaster.attach_channel(&"t1".to_string(), 100), Ok(vec![]));
    assert_eq!(broadcaster.send_to_user((1, ToClient::HelloClient)), vec![hello(100)]);
    assert_eq!(
        broadcaster.attach_channel(&"t1".to_string(), 101),
        Ok(vec![(100, ToClientEnvelope::SuperSeeded())])
    );
    assert_eq!(broadcaster.get(&"t1".to_string()), Some(session("t1", 1, Some(101))));
    for _ in 0..3 {
        assert_eq!(broadcaster.send_to_user((1, ToClient::HelloClient)), vec![hello(101)]);
    }
    // registering the token anew tells the open channel and leaves none
    assert_eq!(
        broadcaster.register_or_supersede("t1".to_string(), 1),
        vec![(101, ToClientEnvelope::SuperSeeded())]
    );
    assert!(broadcaster.send_to_user((1, ToClient::HelloClient)).is_empty());
}

#[test]
fn undelivered_messages_are_named() {
    let mut broadcaster = ClientBroadcaster::new();
    broadcaster.update_client("t1".to_string(), session("t1", 1, Some(10)));
    broadcaster.update_client("t2".to_string(), session("t2", 2, None));
    assert!(broadcaster.reaches(1));
    assert!(!broadcaster.reaches(2));
    assert!(!broadcaster.reaches(3));
    let messages = vec![
        (3, ToClient::HelloClient),
        (1, ToClient::HelloClient),
        (2, ToClient::HelloClient),
        (3, ToClient::HelloClient),
    ];
    assert_eq!(broadcaster.undelivered_players(&messages), vec![3, 2, 3]);
    assert_eq!(
        broadcaster.deliver(messages),
        Delivery { dispatches: vec![hello(10)], undelivered: vec![3, 2, 3] }
    );
    assert_eq!(broadcaster.deliver(vec![]), Delivery { dispatches: vec![], undelivered: vec![] });
}

#[test]
fn a_channel_serves_one_session() {
    let mut broadcaster = ClientBroadcaster::new();
    broadcaster.register_or_supersede("t1".to_string(), 1);
    broadcaster.register_or_supersede("t2".to_string(), 2);
    assert!(!broadcaster.uses_channel(7));
    assert_eq!(broadcaster.attach_channel(&"t1".to_string(), 7), Ok(vec![]));
    assert!(broadcaster.uses_channel(7));
    // neither another session nor the same one can take the channel again
    assert_eq!(broadcaster.attach_channel(&"t2".to_string(), 7), Err(SessionError::ChannelInUse));
    assert_eq!(broadcaster.attach_channel(&"t1".to_string(), 7), Err(SessionError::ChannelInUse));
    assert_eq!(broadcaster.get(&"t2".to_string()), Some(session("t2", 2, None)));
    assert_eq!(broadcaster.get(&"t1".to_string()), Some(session("t1", 1, Some(7))));
    // an unknown token is told first
    assert_eq!(broadcaster.attach_channel(&"t3".to_string(), 7), Err(SessionError::UnknownToken));
    // once superseded, the channel is free again
    assert_eq!(
        broadcaster.attach_channel(&"t1".to_string(), 8),
        Ok(vec![(7, ToClientEnvelope::SuperSeeded())])
    );
    assert!(!broadcaster.uses_channel(7));
    assert_eq!(broadcaster.send_to_user((1, ToClient::HelloClient)), vec![hello(8)]);
}

#[test]
fn a_channel_needs_a_session() {
    let mut broadcaster = ClientBroadcaster::new();
    assert_eq!(broadcaster.attach_channel(&"t1".to_string(), 100), Err(SessionError::UnknownToken));
    assert_eq!(broadcaster.get(&"t1".to_string()), None);
}

#[test]
fn logins() {
    let mut broadcaster = ClientBroadcaster::new();
    let ann = player(1);
    let (response, dispatches) =
        login_with_token(&mut broadcaster, Some(ann.clone()), &"secret1".to_string(), "tok".to_string());
    assert_eq!(
        response,
        LoginResponse::Success(LoginSuccessDetails {
            token: "tok".to_string(),
            username: "player1".to_string()
        })
    );
    assert!(dispatches.is_empty());
    assert_eq!(broadcaster.get(&"tok".to_string()), Some(session("tok", 1, None)));

    let (response, dispatches) =
        login_with_token(&mut broadcaster, Some(ann.clone()), &"wrong".to_string(), "tok2".to_string());
    assert_eq!(
        response,
        LoginResponse::Failure(LoginFailureDetails { msg: "wrong pw".to_string() })
    );
    assert!(dispatches.is_empty());
    assert_eq!(broadcaster.get(&"tok2".to_string()), None);

    let (response, _) = login_with_token(&mut broadcaster, None, &"secret1".to_string(), "tok3".to_string());
    assert_eq!(
        response,
        LoginResponse::Failure(LoginFailureDetails { msg: "not found".to_string() })
    );
    assert_eq!(broadcaster.get(&"tok3".to_string()), None);

    // a token that is in use again supersedes the session's channel
    broadcaster.attach_channel(&"tok".to_string(), 5).unwrap();
    let (_, dispatches) =
        login_with_token(&mut broadcaster, Some(ann.clone()), &"secret1".to_string(), "tok".to_string());
    assert_eq!(dispatches, vec![(5, ToClientEnvelope::SuperSeeded())]);

    match login(&mut broadcaster, Some(ann.clone()), &"secret1".to_string()) {
        (LoginResponse::Success(details), dispatches) => {
            assert_eq!(details.username, "player1");
            assert_eq!(details.token.len(), 36);
            assert!(dispatches.is_empty());
            assert_eq!(broadcaster.get(&details.token), Some(session(&details.token, 1, None)));
        }
        other => panic!("unexpected outcome {:?}", other),
    }
    let (response, _) = login(&mut broadcaster, Some(ann), &"nope".to_string());
    assert_eq!(
        response,
        LoginResponse::Failure(LoginFailureDetails { msg: "wrong pw".to_string() })
    );
}

#[test]
fn commands_are_resolved_and_processed() {
    let mut app = RocketJamApp::with_rng(StdRng::seed_from_u64(9));
    let mut broadcaster = ClientBroadcaster::new();
    broadcaster.register_or_supersede("ann".to_string(), 1);
    broadcaster.attach_channel(&"ann".to_string(), 11).unwrap();
    broadcaster.register_or_supersede("bob".to_string(), 2);

    let unknown = ToBackendEnvelope { token: "eve".to_string(), to_backend: ToBackend::StartGame };
    assert_eq!(resolve_session(&broadcaster, &unknown), Err(Rejection::UnknownToken));
    let known = ToBackendEnvelope { token: "ann".to_string(), to_backend: ToBackend::StartGame };
    assert_eq!(resolve_session(&broadcaster, &known), Ok(1));

    assert_eq!(
        process_action(&mut app, &broadcaster, 1, None, ToBackend::StartGame),
        Err(Rejection::UnknownUser { user_id: 1 })
    );
    assert!(app.model().games_by_id.is_empty());

    let entered = ToClient::EnterRound {
        client_state: ClientState::Lobby { player_count: 1, player_ready_count: 0 },
    };
    assert_eq!(
        process_action(&mut app, &broadcaster, 1, Some(player(1)), ToBackend::StartGame),
        Ok(Delivery {
            dispatches: vec![(11, ToClientEnvelope::AppMsg(entered))],
            undelivered: vec![]
        })
    );
    // bob has a session without a channel: his message goes nowhere
    assert_eq!(
        process_action(&mut app, &broadcaster, 2, Some(player(2)), ToBackend::StartGame),
        Ok(Delivery { dispatches: vec![], undelivered: vec![2] })
    );
    // a command that changes nothing has nothing to deliver
    assert_eq!(
        process_action(&mut app, &broadcaster, 2, Some(player(2)), ToBackend::Init),
        Ok(Delivery { dispatches: vec![], undelivered: vec![] })
    );
    assert_eq!(app.model().games_by_id.len(), 2);
}

#[test]
fn ticks_are_delivered() {
    let mut app = RocketJamApp::with_rng(StdRng::seed_from_u64(9));
    let mut broadcaster = ClientBroadcaster::new();
    broadcaster.register_or_supersede("ann".to_string(), 1);
    broadcaster.attach_channel(&"ann".to_string(), 11).unwrap();
    broadcaster.register_or_supersede("bob".to_string(), 2);
    broadcaster.attach_channel(&"bob".to_string(), 22).unwrap();
    let (ann, bob) = (player(1), player(2));
    app.update(&ann, ToBackend::StartGame);
    let round_id = app.model().games_by_id[0].id.clone();
    app.update(&bob, ToBackend::JoinGame { round_id });
    app.update(&ann, ToBackend::ToggleReady);
    app.update(&bob, ToBackend::ToggleReady);
    for _ in 0..4 {
        assert_eq!(
            game_tick(&mut app, &broadcaster),
            Delivery { dispatches: vec![], undelivered: vec![] }
        );
    }
    let delivery = game_tick(&mut app, &broadcaster);
    assert_eq!(delivery.dispatches.len(), 2);
    assert_eq!(delivery.dispatches[0].0, 11);
    assert_eq!(delivery.dispatches[1].0, 22);
    assert!(delivery.undelivered.is_empty());
    assert_eq!(app.model().tick, 5);
    // once bob's channel is gone his updates are reported as undelivered
    broadcaster.register_or_supersede("bob".to_string(), 2);
    for _ in 0..4 {
        assert!(game_tick(&mut app, &broadcaster).dispatches.is_empty());
    }
    let delivery = game_tick(&mut app, &broadcaster);
    assert_eq!(delivery.dispatches.len(), 1);
    assert_eq!(delivery.dispatches[0].0, 11);
    assert_eq!(delivery.undelivered, vec![2]);
}

#[test]
fn visitors_age() {
    assert_eq!(next_age(None, 10), 0);
    assert_eq!(next_age(Some(0), 10), 10);
    assert_eq!(next_age(Some(25), 10), 35);
    assert_eq!(next_age(Some(usize::MAX - 10), 10), usize::MAX);
}
