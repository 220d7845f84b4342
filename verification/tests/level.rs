use rand::rngs::StdRng;
use rand::SeedableRng;
use rocket_jam::catalog::item_label;
use rocket_jam::dealing::{build_pool, deal_items, mk_items};
use rocket_jam::instructions::{
    candidate_places, instruction_from, mk_instructions, reissue, Cause,
};
use rocket_jam::commands::update_round;
use rocket_jam::lobby::toggle_ready;
use rocket_jam::settings::change_setting;
use rocket_jam::starting::start_level;
use rocket_jam::ticking::tick_round;
use rocket_jam::messages::{ClientState, ClientUiItem, ToBackend, ToClient};
use rocket_jam::projection::{client_state_for_user, level_for_user, state_updates};
use rocket_jam::round::{Instruction, Item, RocketJam, RocketJamRound, RoundState};
use rocket_jam::text::{decimal_string, turn_string};

fn rng(seed: u64) -> StdRng {
    StdRng::seed_from_u64(seed)
}

fn item(id: usize, label: &str, state: u8, user_id: i32) -> Item {
    Item { id, label: label.to_string(), state, user_id, max_value: 5 }
}

fn lobby(players: Vec<i32>, ready: Vec<i32>) -> RocketJamRound {
    RocketJamRound {
        id: "a-round".to_string(),
        players,
        game: RocketJam::InLobby { players_ready: ready },
    }
}

fn two_player_level() -> RoundState {
    RoundState {
        available_items: vec![(9, "Fridge".to_string(), 3)],
        items: vec![
            item(0, "Chemex Coffeemaker", 0, 1),
            item(5, "Radio", 1, 1),
            item(7, "Flux compensator", 0, 2),
        ],
        instructions: vec![
            Instruction { user_id: 1, item_id: 7, state: 1, eol_tick: 8 },
            Instruction { user_id: 2, item_id: 5, state: 0, eol_tick: 9 },
        ],
        instructions_executed: 3,
        instructions_missed: 4,
    }
}

fn in_level(players: Vec<i32>, round_state: RoundState) -> RocketJamRound {
    RocketJamRound { id: "a-round".to_string(), players, game: RocketJam::InLevel(round_state) }
}

fn level_of(round: &RocketJamRound) -> &RoundState {
    match &round.game {
        RocketJam::InLevel(round_state) => round_state,
        RocketJam::InLobby { .. } => panic!("the round is in the lobby"),
    }
}

#[test]
fn catalogue_labels() {
    assert_eq!(item_label(0), "Chemex Coffeemaker");
    assert_eq!(item_label(5), "Radio");
    assert_eq!(item_label(11), "Ventilation");
    assert_eq!(item_label(12), "");
}

#[test]
fn numerals() {
    assert_eq!(decimal_string(0), "0");
    assert_eq!(decimal_string(9), "9");
    assert_eq!(decimal_string(10), "10");
    assert_eq!(decimal_string(99), "99");
    assert_eq!(decimal_string(100), "100");
    assert_eq!(decimal_string(205), "205");
    assert_eq!(decimal_string(255), "255");
}

#[test]
fn wording_of_an_instruction() {
    assert_eq!(turn_string(&"Pizza oven".to_string(), 1), "Turn Pizza oven to 1");
    assert_eq!(turn_string(&"".to_string(), 0), "Turn  to 0");
}

#[test]
fn mk_items_takes_from_the_end() {
    let mut pool =
        vec![(3, "a".to_string(), 2), (1, "b".to_string(), 9), (2, "c".to_string(), 4)];
    let items = mk_items(7, 2, &mut pool);
    assert_eq!(
        items,
        vec![
            Item { id: 2, label: "c".to_string(), state: 0, user_id: 7, max_value: 4 },
            Item { id: 1, label: "b".to_string(), state: 0, user_id: 7, max_value: 9 },
        ]
    );
    assert_eq!(pool, vec![(3, "a".to_string(), 2)]);
}

#[test]
fn mk_items_runs_out() {
    let mut pool = vec![(3, "a".to_string(), 2)];
    let items = mk_items(7, 4, &mut pool);
    assert_eq!(
        items,
        vec![Item { id: 3, label: "a".to_string(), state: 0, user_id: 7, max_value: 2 }]
    );
    assert!(pool.is_empty());
    assert!(mk_items(7, 4, &mut pool).is_empty());
    assert!(mk_items(7, 0, &mut vec![(3, "a".to_string(), 2)]).is_empty());
}

#[test]
fn pool_holds_every_catalogue_item_once() {
    for seed in 0..20 {
        let pool = build_pool(&mut rng(seed));
        assert_eq!(pool.len(), 12);
        let mut ids: Vec<usize> = pool.iter().map(|entry| entry.0).collect();
        ids.sort();
        assert_eq!(ids, (0..12).collect::<Vec<usize>>());
        for (id, label, max_value) in &pool {
            assert_eq!(*label, item_label(*id));
            assert!(2 <= *max_value && *max_value < 10);
        }
    }
}

#[test]
fn pool_is_shuffled_and_settings_vary() {
    let pool = build_pool(&mut rng(11));
    let ids: Vec<usize> = pool.iter().map(|entry| entry.0).collect();
    assert_ne!(ids, (0..12).collect::<Vec<usize>>());
    let first = pool[0].2;
    assert!(pool.iter().any(|entry| entry.2 != first));
    let other = build_pool(&mut rng(12));
    assert_ne!(pool, other);
    assert_eq!(pool, build_pool(&mut rng(11)));
}

#[test]
fn dealing_goes_round_the_players() {
    let mut pool = build_pool(&mut rng(3));
    let whole = pool.clone();
    let items = deal_items(&vec![10, 20, 30, 40], &mut pool);
    assert_eq!(items.len(), 12);
    assert!(pool.is_empty());
    for (k, item) in items.iter().enumerate() {
        assert_eq!(item.user_id, [10, 20, 30][k / 4]);
        assert_eq!(item.id, whole[11 - k].0);
        assert_eq!(item.label, whole[11 - k].1);
        assert_eq!(item.max_value, whole[11 - k].2);
        assert_eq!(item.state, 0);
    }
    let mut pool = whole.clone();
    let items = deal_items(&vec![10], &mut pool);
    assert_eq!(items.len(), 4);
    assert_eq!(pool, whole[..8].to_vec());
}

#[test]
fn instruction_never_names_an_own_item() {
    let items = two_player_level().items;
    for seed in 0..50 {
        let for_one = mk_instructions(1, &items, 3, &mut rng(seed)).unwrap();
        assert_eq!(for_one, Instruction { user_id: 1, item_id: 7, state: 1, eol_tick: 8 });
        let for_two = mk_instructions(2, &items, 3, &mut rng(seed)).unwrap();
        assert_eq!(for_two.user_id, 2);
        assert_eq!(for_two.eol_tick, 8);
        assert!(
            (for_two.item_id == 0 && for_two.state == 1)
                || (for_two.item_id == 5 && for_two.state == 0)
        );
    }
    let picks: Vec<usize> =
        (0..50).map(|seed| mk_instructions(2, &items, 3, &mut rng(seed)).unwrap().item_id).collect();
    assert!(picks.contains(&0));
    assert!(picks.contains(&5));
}

#[test]
fn no_instruction_for_a_player_who_owns_everything() {
    let items = vec![item(0, "Chemex Coffeemaker", 0, 1), item(5, "Radio", 1, 1)];
    assert_eq!(mk_instructions(1, &items, 3, &mut rng(1)), None);
    assert_eq!(mk_instructions(1, &vec![], 3, &mut rng(1)), None);
    assert!(mk_instructions(2, &items, 3, &mut rng(1)).is_some());
}

#[test]
fn toggling_ready_on_and_off() {
    let round = lobby(vec![1, 2, 3], vec![]);
    let one_ready = toggle_ready(1, &round, 0, &mut rng(1)).unwrap();
    assert_eq!(one_ready, lobby(vec![1, 2, 3], vec![1]));
    let two_ready = toggle_ready(3, &one_ready, 0, &mut rng(1)).unwrap();
    assert_eq!(two_ready, lobby(vec![1, 2, 3], vec![1, 3]));
    let one_again = toggle_ready(1, &two_ready, 0, &mut rng(1)).unwrap();
    assert_eq!(one_again, lobby(vec![1, 2, 3], vec![3]));
}

#[test]
fn toggle_of_a_stranger_or_in_a_level_does_nothing() {
    let round = lobby(vec![1, 2], vec![1]);
    assert_eq!(toggle_ready(9, &round, 0, &mut rng(1)), None);
    let playing = in_level(vec![1, 2], two_player_level());
    assert_eq!(toggle_ready(1, &playing, 0, &mut rng(1)), None);
}

#[test]
fn last_toggle_starts_the_level() {
    for players in 2..=5usize {
        let ids: Vec<i32> = (1..=players as i32).collect();
        let mut round = lobby(ids.clone(), vec![]);
        let mut random = rng(players as u64);
        for (k, player) in ids.iter().enumerate() {
            assert_eq!(round, lobby(ids.clone(), ids[..k].to_vec()));
            round = toggle_ready(*player, &round, 6, &mut random).unwrap();
        }
        let started = level_of(&round);
        assert_eq!(started.items.len(), std::cmp::min(4 * players, 12));
        assert_eq!(started.available_items.len(), 12 - started.items.len());
        for (k, item) in started.items.iter().enumerate() {
            assert_eq!(item.user_id, ids[k / 4]);
            assert_eq!(item.state, 0);
        }
        assert_eq!(started.instructions.len(), players);
        for (instruction, player) in started.instructions.iter().zip(ids.iter()) {
            assert_eq!(instruction.user_id, *player);
            assert_eq!(instruction.eol_tick, 11);
            assert_eq!(instruction.state, 1);
            let target = started.items.iter().find(|i| i.id == instruction.item_id).unwrap();
            assert_ne!(target.user_id, *player);
        }
        assert_eq!(started.instructions_executed, 0);
        assert_eq!(started.instructions_missed, 0);
        assert_eq!(round.players, ids);
    }
}

#[test]
fn single_player_starts_alone_without_instruction() {
    let round = lobby(vec![1], vec![]);
    let started = toggle_ready(1, &round, 0, &mut rng(4)).unwrap();
    let round_state = level_of(&started);
    assert_eq!(round_state.items.len(), 4);
    assert!(round_state.instructions.is_empty());
    let again = start_level(&vec![1], 0, &mut rng(4));
    assert_eq!(again, *round_state);
}

#[test]
fn idle_tick_changes_nothing() {
    let round = in_level(vec![1, 2], two_player_level());
    for tick in [0, 7, 10, 100] {
        let (after, messages) = tick_round(&round, tick, &mut rng(5));
        assert_eq!(after, round);
        assert!(messages.is_empty());
    }
    let waiting = lobby(vec![1, 2], vec![2]);
    let (after, messages) = tick_round(&waiting, 8, &mut rng(5));
    assert_eq!(after, waiting);
    assert!(messages.is_empty());
}

#[test]
fn expired_instruction_is_replaced() {
    let round = in_level(vec![1, 2], two_player_level());
    let (after, messages) = tick_round(&round, 8, &mut rng(5));
    let round_state = level_of(&after);
    assert_eq!(round_state.instructions_missed, 5);
    assert_eq!(round_state.instructions_executed, 3);
    assert_eq!(round_state.items, two_player_level().items);
    assert_eq!(round_state.available_items, two_player_level().available_items);
    assert_eq!(
        round_state.instructions,
        vec![
            Instruction { user_id: 1, item_id: 7, state: 1, eol_tick: 13 },
            Instruction { user_id: 2, item_id: 5, state: 0, eol_tick: 9 },
        ]
    );
    assert_eq!(messages, state_updates(&after));
    assert_eq!(messages.len(), 2);
    assert_eq!(
        messages[0],
        (
            1,
            ToClient::UpdateGameState {
                client_state: ClientState::InGame {
                    current_instruction: "Turn Flux compensator to 1".to_string(),
                    ui_items: vec![
                        ClientUiItem {
                            id: 0,
                            label: "Chemex Coffeemaker".to_string(),
                            state: 0,
                            max_value: 5
                        },
                        ClientUiItem { id: 5, label: "Radio".to_string(), state: 1, max_value: 5 },
                    ],
                    instructions_executed: 3,
                    instructions_missed: 5,
                }
            }
        )
    );
}

#[test]
fn expired_instruction_of_a_lone_owner_just_leaves() {
    let mut round_state = two_player_level();
    round_state.items = vec![item(0, "Chemex Coffeemaker", 0, 1), item(5, "Radio", 1, 1)];
    round_state.instructions =
        vec![Instruction { user_id: 1, item_id: 5, state: 0, eol_tick: 8 }];
    let round = in_level(vec![1], round_state);
    let (after, messages) = tick_round(&round, 8, &mut rng(5));
    assert!(level_of(&after).instructions.is_empty());
    assert_eq!(level_of(&after).instructions_missed, 5);
    assert!(messages.is_empty());
}

#[test]
fn reissue_counts_and_reports() {
    let round_state = two_player_level();
    let (renewed, hits, updated) = reissue(
        &round_state.instructions,
        &round_state.items,
        Cause::Expired { tick: 9 },
        9,
        &mut rng(2),
    );
    assert_eq!(hits, 1);
    assert!(updated);
    assert_eq!(renewed.len(), 2);
    assert_eq!(renewed[0], round_state.instructions[0]);
    assert_eq!(renewed[1].user_id, 2);
    assert_eq!(renewed[1].eol_tick, 14);
    let (same, hits, updated) = reissue(
        &round_state.instructions,
        &round_state.items,
        Cause::Executed { item_id: 7, state: 0 },
        9,
        &mut rng(2),
    );
    assert_eq!(same, round_state.instructions);
    assert_eq!(hits, 0);
    assert!(!updated);
}

#[test]
fn change_of_setting_executes_the_instruction() {
    let round = in_level(vec![1, 2], two_player_level());
    let after = change_setting(2, 7, 1, &round, 4, &mut rng(8)).unwrap();
    let round_state = level_of(&after);
    assert_eq!(round_state.instructions_executed, 4);
    assert_eq!(round_state.instructions_missed, 4);
    assert_eq!(round_state.items[2], item(7, "Flux compensator", 1, 2));
    assert_eq!(round_state.items[0], item(0, "Chemex Coffeemaker", 0, 1));
    assert_eq!(round_state.items[1], item(5, "Radio", 1, 1));
    assert_eq!(
        round_state.instructions,
        vec![
            Instruction { user_id: 1, item_id: 7, state: 0, eol_tick: 9 },
            Instruction { user_id: 2, item_id: 5, state: 0, eol_tick: 9 },
        ]
    );
}

#[test]
fn change_of_setting_that_nobody_asked_for() {
    let round = in_level(vec![1, 2], two_player_level());
    let after = change_setting(1, 0, 200, &round, 4, &mut rng(8)).unwrap();
    let round_state = level_of(&after);
    assert_eq!(round_state.items[0].state, 200);
    assert_eq!(round_state.instructions, two_player_level().instructions);
    assert_eq!(round_state.instructions_executed, 3);
}

#[test]
fn change_of_setting_on_a_foreign_or_unknown_item_does_nothing() {
    let round = in_level(vec![1, 2], two_player_level());
    assert_eq!(change_setting(1, 7, 1, &round, 4, &mut rng(8)), None);
    assert_eq!(change_setting(1, 99, 1, &round, 4, &mut rng(8)), None);
    assert_eq!(change_setting(3, 0, 1, &round, 4, &mut rng(8)), None);
    assert_eq!(change_setting(1, 0, 1, &lobby(vec![1], vec![]), 4, &mut rng(8)), None);
}

#[test]
fn commands_that_do_not_fit_give_no_message() {
    let playing = in_level(vec![1, 2], two_player_level());
    let waiting = lobby(vec![1, 2], vec![]);
    let misfits = [
        (1, &playing, ToBackend::ToggleReady),
        (1, &playing, ToBackend::Init),
        (1, &playing, ToBackend::StartGame),
        (1, &playing, ToBackend::GetAvailableRounds),
        (1, &playing, ToBackend::JoinGame { round_id: "a-round".to_string() }),
        (1, &playing, ToBackend::ChangeSetting { item_id: 7, value: 1 }),
        (1, &waiting, ToBackend::ChangeSetting { item_id: 0, value: 1 }),
        (7, &waiting, ToBackend::ToggleReady),
        (1, &waiting, ToBackend::Init),
    ];
    for (user, round, command) in misfits.iter() {
        let (after, messages) = update_round(*user, round, command, 2, &mut rng(1));
        assert_eq!(after, **round);
        assert!(messages.is_empty());
    }
}

#[test]
fn commands_that_fit_update_every_player() {
    let waiting = lobby(vec![1, 2, 3], vec![]);
    let (after, messages) = update_round(2, &waiting, &ToBackend::ToggleReady, 2, &mut rng(1));
    assert_eq!(after, lobby(vec![1, 2, 3], vec![2]));
    let shown = ClientState::Lobby { player_count: 3, player_ready_count: 1 };
    assert_eq!(
        messages,
        vec![
            (1, ToClient::UpdateGameState { client_state: shown.clone() }),
            (2, ToClient::UpdateGameState { client_state: shown.clone() }),
            (3, ToClient::UpdateGameState { client_state: shown }),
        ]
    );
    let playing = in_level(vec![1, 2], two_player_level());
    let command = ToBackend::ChangeSetting { item_id: 5, value: 0 };
    let (after, messages) = update_round(1, &playing, &command, 2, &mut rng(1));
    assert_eq!(level_of(&after).items[1].state, 0);
    assert_eq!(level_of(&after).instructions_executed, 4);
    assert_eq!(messages, state_updates(&after));
    assert_eq!(messages.len(), 2);
}

#[test]
fn a_player_sees_own_items_and_own_instruction_only() {
    let round_state = two_player_level();
    assert_eq!(
        level_for_user(2, &round_state),
        Some(ClientState::InGame {
            current_instruction: "Turn Radio to 0".to_string(),
            ui_items: vec![ClientUiItem {
                id: 7,
                label: "Flux compensator".to_string(),
                state: 0,
                max_value: 5
            }],
            instructions_executed: 3,
            instructions_missed: 4,
        })
    );
    let mut without_others = two_player_level();
    without_others.instructions.retain(|instruction| instruction.user_id == 2);
    assert_eq!(level_for_user(2, &without_others), level_for_user(2, &round_state));
    assert_eq!(
        level_for_user(3, &round_state),
        Some(ClientState::InGame {
            current_instruction: "".to_string(),
            ui_items: vec![],
            instructions_executed: 3,
            instructions_missed: 4,
        })
    );
}

#[test]
fn an_instruction_for_an_unknown_item_reads_empty() {
    let mut round_state = two_player_level();
    round_state.instructions[0].item_id = 99;
    match level_for_user(1, &round_state) {
        Some(ClientState::InGame { current_instruction, .. }) => {
            assert_eq!(current_instruction, "")
        }
        other => panic!("unexpected view {:?}", other),
    }
}

#[test]
fn the_lobby_shows_two_counts() {
    let round = lobby(vec![4, 5, 6], vec![5]);
    let shown = Some(ClientState::Lobby { player_count: 3, player_ready_count: 1 });
    assert_eq!(client_state_for_user(4, &round), shown);
    assert_eq!(client_state_for_user(99, &round), shown);
    let playing = in_level(vec![1, 2], two_player_level());
    assert_eq!(client_state_for_user(1, &playing), level_for_user(1, &two_player_level()));
}

#[test]
fn an_instruction_flips_its_item() {
    assert_eq!(
        instruction_from(3, &item(7, "Flux compensator", 0, 2), 4),
        Instruction { user_id: 3, item_id: 7, state: 1, eol_tick: 9 }
    );
    assert_eq!(
        instruction_from(3, &item(5, "Radio", 1, 1), 0),
        Instruction { user_id: 3, item_id: 5, state: 0, eol_tick: 5 }
    );
    assert_eq!(
        instruction_from(1, &item(5, "Radio", 200, 1), i32::MAX - 5),
        Instruction { user_id: 1, item_id: 5, state: 0, eol_tick: i32::MAX }
    );
}

#[test]
fn candidates_are_the_items_of_the_others() {
    let items = two_player_level().items;
    assert_eq!(candidate_places(1, &items), vec![2]);
    assert_eq!(candidate_places(2, &items), vec![0, 1]);
    assert_eq!(candidate_places(3, &items), vec![0, 1, 2]);
    assert!(candidate_places(3, &vec![]).is_empty());
}

#[test]
fn what_issues_nothing_needs_no_room() {
    let late = i32::MAX;
    // a toggle below the threshold, and one that takes readiness back
    let waiting = lobby(vec![1, 2, 3], vec![2]);
    assert_eq!(toggle_ready(1, &waiting, late, &mut rng(1)), Some(lobby(vec![1, 2, 3], vec![2, 1])));
    assert_eq!(toggle_ready(2, &waiting, late, &mut rng(1)), Some(lobby(vec![1, 2, 3], vec![])));
    // a toggle in a level
    let playing = in_level(vec![1, 2], two_player_level());
    let (after, messages) = update_round(1, &playing, &ToBackend::ToggleReady, late, &mut rng(1));
    assert_eq!(after, playing);
    assert!(messages.is_empty());
    // an idle tick, with counters that are full
    let mut full = two_player_level();
    full.instructions_missed = usize::MAX;
    full.instructions_executed = usize::MAX;
    let round = in_level(vec![1, 2], full);
    let (after, messages) = tick_round(&round, late, &mut rng(1));
    assert_eq!(after, round);
    assert!(messages.is_empty());
    // a setting that nobody asked for
    let after = change_setting(1, 0, 3, &round, late, &mut rng(1)).unwrap();
    assert_eq!(level_of(&after).items[0].state, 3);
    assert_eq!(level_of(&after).instructions_executed, usize::MAX);
}
