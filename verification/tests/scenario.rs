use rand::rngs::StdRng;
use rand::SeedableRng;
use rocket_jam::game::RocketJamApp;
use rocket_jam::messages::{ClientState, ToBackend, ToClient};
use rocket_jam::round::{RocketJam, RocketJamRound, RoundState};
use rocket_jam::user::User;

fn player(id: i32) -> User {
    User { id, username: format!("player{}", id), hashed_password: format!("secret{}", id) }
}

fn only_round(app: &RocketJamApp) -> &RocketJamRound {
    assert_eq!(app.model().games_by_id.len(), 1);
    &app.model().games_by_id[0]
}

fn level(app: &RocketJamApp) -> &RoundState {
    match &only_round(app).game {
        RocketJam::InLevel(round_state) => round_state,
        RocketJam::InLobby { .. } => panic!("the round is still in the lobby"),
    }
}

#[test]
fn two_players_play_a_round() {
    let mut app = RocketJamApp::with_rng(StdRng::seed_from_u64(2024));
    let ann = player(1);
    let bob = player(2);

    // Ann creates a round and is let in.
    let created = app.update(&ann, ToBackend::StartGame);
    assert_eq!(
        created,
        vec![(
            1,
            ToClient::EnterRound {
                client_state: ClientState::Lobby { player_count: 1, player_ready_count: 0 }
            }
        )]
    );
    let round_id = only_round(&app).id.clone();

    // Bob finds the round and joins it.
    let listed = app.update(&bob, ToBackend::GetAvailableRounds);
    assert_eq!(listed, vec![(2, ToClient::AvailableRounds { round_ids: vec![round_id.clone()] })]);
    let joined = app.update(&bob, ToBackend::JoinGame { round_id: round_id.clone() });
    assert_eq!(
        joined,
        vec![
            (
                1,
                ToClient::UpdateGameState {
                    client_state: ClientState::Lobby { player_count: 2, player_ready_count: 0 }
                }
            ),
            (
                2,
                ToClient::EnterRound {
                    client_state: ClientState::Lobby { player_count: 2, player_ready_count: 0 }
                }
            ),
        ]
    );
    assert_eq!(only_round(&app).players, vec![1, 2]);

    // Both toggle ready: the first toggle keeps the lobby, the second starts the level.
    let first = app.update(&ann, ToBackend::ToggleReady);
    assert_eq!(first.len(), 2);
    assert_eq!(only_round(&app).game, RocketJam::InLobby { players_ready: vec![1] });
    let second = app.update(&bob, ToBackend::ToggleReady);
    assert_eq!(second.len(), 2);
    {
        let started = level(&app);
        assert_eq!(started.items.len(), 8);
        assert_eq!(started.items.iter().filter(|item| item.user_id == 1).count(), 4);
        assert_eq!(started.items.iter().filter(|item| item.user_id == 2).count(), 4);
        assert_eq!(started.available_items.len(), 4);
        assert_eq!(started.instructions.len(), 2);
        assert_eq!(started.instructions[0].user_id, 1);
        assert_eq!(started.instructions[1].user_id, 2);
        assert_eq!(started.instructions[0].eol_tick, 5);
        assert_eq!(started.instructions[1].eol_tick, 5);
        assert_eq!(started.instructions_executed, 0);
        assert_eq!(started.instructions_missed, 0);
    }

    // Five ticks pass without a change of setting: the first four find nothing,
    // the fifth is tick 5 and finds both instructions.
    for tick in 0..4 {
        assert_eq!(app.model().tick, tick);
        let messages = app.tick();
        assert!(messages.is_empty());
        assert_eq!(level(&app).instructions_missed, 0);
    }
    assert_eq!(app.model().tick, 4);
    let before: Vec<_> = level(&app).instructions.clone();
    let messages = app.tick();
    assert_eq!(app.model().tick, 5);
    assert_eq!(messages.len(), 2);
    assert_eq!(messages[0].0, 1);
    assert_eq!(messages[1].0, 2);
    {
        let after = level(&app);
        assert_eq!(after.instructions_missed, 2);
        assert_eq!(after.instructions.len(), 2);
        for (old, new) in before.iter().zip(after.instructions.iter()) {
            assert_eq!(new.user_id, old.user_id);
            assert_eq!(new.eol_tick, 10);
            assert_ne!(new, old);
        }
    }

    // Bob makes the setting that Ann's instruction asks for.
    let wanted = level(&app).instructions[0];
    assert_eq!(wanted.user_id, 1);
    let owner = level(&app).items.iter().find(|item| item.id == wanted.item_id).unwrap().user_id;
    assert_eq!(owner, 2);
    let same_setting_asked_of_bob = level(&app)
        .instructions
        .iter()
        .filter(|i| i.item_id == wanted.item_id && i.state == wanted.state)
        .count();
    assert_eq!(same_setting_asked_of_bob, 1);
    let messages =
        app.update(&bob, ToBackend::ChangeSetting { item_id: wanted.item_id, value: wanted.state });
    assert_eq!(messages.len(), 2);
    let after = level(&app);
    assert_eq!(after.instructions_executed, 1);
    assert_eq!(after.instructions_missed, 2);
    let changed = after.items.iter().find(|item| item.id == wanted.item_id).unwrap();
    assert_eq!(changed.state, wanted.state);
    assert_eq!(after.instructions.len(), 2);
    assert_eq!(after.instructions[0].user_id, 1);
    assert_eq!(after.instructions[0].eol_tick, 10);
}
