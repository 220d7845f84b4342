use rand::rngs::StdRng;
use rand::SeedableRng;
use rocket_jam::game::RocketJamApp;
use rocket_jam::messages::{ClientState, ToBackend, ToClient};
use rocket_jam::registry::{
    find_game_by_user_id, find_round_by_id, free_identifier, get_available_rounds, init_model,
    init_rocket_jam, init_rocket_jam_with_id, join_game, list_joinable_rounds,
    longest_identifier, start_game, start_game_with_id,
};
use rocket_jam::round::{RocketJam, RocketJamRound};
use rocket_jam::user::{check_credentials, User};

fn player(id: i32) -> User {
    User { id, username: format!("player{}", id), hashed_password: format!("secret{}", id) }
}

fn lobby(id: &str, players: Vec<i32>) -> RocketJamRound {
    RocketJamRound {
        id: id.to_string(),
        players,
        game: RocketJam::InLobby { players_ready: vec![] },
    }
}

fn enter(user: i32, player_count: usize) -> (i32, ToClient) {
    (
        user,
        ToClient::EnterRound {
            client_state: ClientState::Lobby { player_count, player_ready_count: 0 },
        },
    )
}

#[test]
fn a_new_registry_is_empty() {
    let model = init_model();
    assert!(model.games_by_id.is_empty());
    assert!(model.game_ids_by_user_id.is_empty());
    assert_eq!(model.tick, 0);
    assert!(model.check_limits());
    assert_eq!(find_game_by_user_id(&1, &model), None);
    assert_eq!(find_round_by_id(&"x".to_string(), &model), None);
    assert_eq!(get_available_rounds(3, &model), vec![(3, ToClient::AvailableRounds { round_ids: vec![] })]);
}

#[test]
fn a_new_round_has_its_creator_only() {
    assert_eq!(init_rocket_jam_with_id("r".to_string(), 5), lobby("r", vec![5]));
    let round = init_rocket_jam(5);
    assert_eq!(round, lobby(&round.id, vec![5]));
    assert_eq!(round.id.len(), 36);
    assert_ne!(round.id, init_rocket_jam(5).id);
}

#[test]
fn starting_and_joining() {
    let mut model = init_model();
    assert_eq!(start_game_with_id(1, "first".to_string(), &mut model), vec![enter(1, 1)]);
    assert_eq!(start_game_with_id(2, "second".to_string(), &mut model), vec![enter(2, 1)]);
    assert_eq!(model.games_by_id, vec![lobby("first", vec![1]), lobby("second", vec![2])]);
    assert_eq!(model.game_ids_by_user_id.get(&1), Some(&"first".to_string()));
    assert_eq!(model.game_ids_by_user_id.get(&2), Some(&"second".to_string()));

    let messages = join_game(3, &"second".to_string(), &mut model);
    assert_eq!(
        messages,
        vec![
            (
                2,
                ToClient::UpdateGameState {
                    client_state: ClientState::Lobby { player_count: 2, player_ready_count: 0 }
                }
            ),
            enter(3, 2),
        ]
    );
    assert_eq!(model.games_by_id, vec![lobby("first", vec![1]), lobby("second", vec![2, 3])]);
    assert_eq!(model.game_ids_by_user_id.get(&3), Some(&"second".to_string()));
    assert_eq!(find_game_by_user_id(&3, &model), Some(lobby("second", vec![2, 3])));
    assert_eq!(find_round_by_id(&"first".to_string(), &model), Some(lobby("first", vec![1])));
    assert_eq!(find_round_by_id(&"third".to_string(), &model), None);
    assert_eq!(find_game_by_user_id(&4, &model), None);
}

#[test]
fn joining_a_round_that_is_not_there_does_nothing() {
    let mut model = init_model();
    start_game_with_id(1, "first".to_string(), &mut model);
    assert!(join_game(2, &"nowhere".to_string(), &mut model).is_empty());
    assert_eq!(model.games_by_id, vec![lobby("first", vec![1])]);
    assert_eq!(model.game_ids_by_user_id.len(), 1);
}

#[test]
fn nobody_is_in_two_rounds() {
    let mut model = init_model();
    start_game_with_id(1, "first".to_string(), &mut model);
    start_game_with_id(2, "second".to_string(), &mut model);
    // a player in a round can neither join another nor the same again
    assert!(join_game(1, &"second".to_string(), &mut model).is_empty());
    assert!(join_game(1, &"first".to_string(), &mut model).is_empty());
    // and is let into the same round again on starting anew
    assert_eq!(start_game_with_id(1, "third".to_string(), &mut model), vec![enter(1, 1)]);
    assert_eq!(start_game(2, &mut model), vec![enter(2, 1)]);
    assert_eq!(model.games_by_id, vec![lobby("first", vec![1]), lobby("second", vec![2])]);
    for user in [1, 2] {
        let holding: Vec<&RocketJamRound> =
            model.games_by_id.iter().filter(|round| round.players.contains(&user)).collect();
        assert_eq!(holding.len(), 1);
        assert_eq!(model.game_ids_by_user_id.get(&user), Some(&holding[0].id));
    }
}

#[test]
fn an_identifier_that_is_taken_is_refused() {
    let mut model = init_model();
    start_game_with_id(1, "first".to_string(), &mut model);
    assert!(start_game_with_id(2, "first".to_string(), &mut model).is_empty());
    assert_eq!(model.games_by_id, vec![lobby("first", vec![1])]);
    assert_eq!(model.game_ids_by_user_id.get(&2), None);
}

#[test]
fn start_game_draws_an_identifier() {
    let mut model = init_model();
    assert_eq!(start_game(1, &mut model), vec![enter(1, 1)]);
    assert_eq!(start_game(2, &mut model), vec![enter(2, 1)]);
    assert_eq!(model.games_by_id.len(), 2);
    assert_ne!(model.games_by_id[0].id, model.games_by_id[1].id);
    assert_eq!(model.games_by_id[0].id.len(), 36);
    assert_eq!(model.game_ids_by_user_id.get(&2), Some(&model.games_by_id[1].id));
}

#[test]
fn only_rounds_in_the_lobby_are_listed() {
    let mut app = RocketJamApp::with_rng(StdRng::seed_from_u64(1));
    let (ann, bob, cid) = (player(1), player(2), player(3));
    app.update(&ann, ToBackend::StartGame);
    app.update(&bob, ToBackend::StartGame);
    let first = app.model().games_by_id[0].id.clone();
    let second = app.model().games_by_id[1].id.clone();
    assert_eq!(
        app.update(&cid, ToBackend::Init),
        vec![(3, ToClient::AvailableRounds { round_ids: vec![first.clone(), second.clone()] })]
    );
    // the only player of the first round gets ready: its level starts
    app.update(&ann, ToBackend::ToggleReady);
    assert_eq!(
        app.update(&cid, ToBackend::GetAvailableRounds),
        vec![(3, ToClient::AvailableRounds { round_ids: vec![second] })]
    );
    // a round in a level can still be joined by its identifier
    let messages = app.update(&cid, ToBackend::JoinGame { round_id: first });
    assert_eq!(messages.len(), 2);
    assert_eq!(app.model().games_by_id[0].players, vec![1, 3]);
}

#[test]
fn commands_of_somebody_without_a_round() {
    let mut app = RocketJamApp::with_rng(StdRng::seed_from_u64(1));
    let ann = player(1);
    assert!(app.update(&ann, ToBackend::ToggleReady).is_empty());
    assert!(app.update(&ann, ToBackend::ChangeSetting { item_id: 0, value: 1 }).is_empty());
    assert!(app.update(&ann, ToBackend::JoinGame { round_id: "none".to_string() }).is_empty());
    assert!(app.model().games_by_id.is_empty());
    assert_eq!(app.model().tick, 0);
}

#[test]
fn commands_in_a_round_that_do_not_fit_are_silent() {
    let mut app = RocketJamApp::with_rng(StdRng::seed_from_u64(1));
    let ann = player(1);
    app.update(&ann, ToBackend::StartGame);
    let before = app.model().games_by_id.clone();
    for command in [
        ToBackend::Init,
        ToBackend::StartGame,
        ToBackend::GetAvailableRounds,
        ToBackend::ChangeSetting { item_id: 0, value: 1 },
        ToBackend::JoinGame { round_id: before[0].id.clone() },
    ] {
        assert!(app.update(&ann, command).is_empty());
        assert_eq!(app.model().games_by_id, before);
    }
}

#[test]
fn ticks_are_counted() {
    let mut app = RocketJamApp::new();
    assert!(app.check_limits());
    for tick in 0..3 {
        assert_eq!(app.model().tick, tick);
        assert!(app.tick().is_empty());
    }
    assert_eq!(app.model().tick, 3);
}

#[test]
fn limits_are_checked() {
    let mut model = init_model();
    model.tick = i32::MAX - 6;
    assert!(model.check_limits());
    model.tick = i32::MAX - 5;
    assert!(!model.check_limits());
    let mut round = lobby("r", vec![1]);
    assert!(round.check_headroom());
    round.game = RocketJam::InLevel(rocket_jam::round::RoundState {
        available_items: vec![],
        items: vec![],
        instructions: vec![rocket_jam::round::Instruction {
            user_id: 1,
            item_id: 0,
            state: 0,
            eol_tick: 0,
        }],
        instructions_executed: usize::MAX,
        instructions_missed: 0,
    });
    assert!(!round.check_headroom());
}

#[test]
fn passwords_are_compared() {
    let ann = player(1);
    assert_eq!(check_credentials(Some(ann.clone()), &"secret1".to_string()), Some(ann.clone()));
    assert_eq!(check_credentials(Some(ann), &"secret2".to_string()), None);
    assert_eq!(check_credentials(None, &"secret1".to_string()), None);
}

fn level_after_start(seed: u64) -> rocket_jam::round::RocketJam {
    let mut app = RocketJamApp::with_rng(StdRng::seed_from_u64(seed));
    let (ann, bob) = (player(1), player(2));
    app.update(&ann, ToBackend::StartGame);
    let round_id = app.model().games_by_id[0].id.clone();
    app.update(&bob, ToBackend::JoinGame { round_id });
    app.update(&ann, ToBackend::ToggleReady);
    app.update(&bob, ToBackend::ToggleReady);
    app.model().games_by_id[0].game.clone()
}

#[test]
fn the_game_draws_from_the_source_it_is_given() {
    assert_eq!(level_after_start(5), level_after_start(5));
    assert_eq!(level_after_start(6), level_after_start(6));
    assert_ne!(level_after_start(5), level_after_start(6));
}

#[test]
fn a_taken_identifier_is_lengthened_until_it_is_free() {
    let mut model = init_model();
    assert_eq!(longest_identifier(&model), 0);
    assert_eq!(free_identifier("first".to_string(), &model), "first");
    start_game_with_id(1, "first".to_string(), &mut model);
    start_game_with_id(2, "second!".to_string(), &mut model);
    assert_eq!(longest_identifier(&model), 7);
    assert_eq!(free_identifier("third".to_string(), &model), "third");
    assert_eq!(free_identifier("first".to_string(), &model), "first000");
    assert_eq!(free_identifier("second!".to_string(), &model), "second!0");
    assert_eq!(list_joinable_rounds(&model), vec!["first".to_string(), "second!".to_string()]);
}

#[test]
fn a_player_without_a_round_always_gets_one() {
    let mut model = init_model();
    for user in 1..=20 {
        let before = model.games_by_id.clone();
        assert_eq!(start_game(user, &mut model), vec![enter(user, 1)]);
        assert_eq!(model.games_by_id.len(), before.len() + 1);
        assert_eq!(model.games_by_id[..before.len()], before[..]);
        let created = model.games_by_id.last().unwrap();
        assert_eq!(*created, lobby(&created.id, vec![user]));
        assert!(before.iter().all(|round| round.id != created.id));
        assert_eq!(model.game_ids_by_user_id.get(&user), Some(&created.id));
        assert_eq!(model.game_ids_by_user_id.len(), user as usize);
    }
}
