//! The lobby: players flag that they are ready, and the last one to do so
//! starts the level.

use crate::round::{
    copy_users, RocketJam, RocketJamRound, RocketJamRoundView, RocketJamView, UserId,
    INSTRUCTION_WINDOW,
};
use crate::starting::{level_started, start_level};
use rand::rngs::StdRng;
use vstd::prelude::*;

verus! {

/// The test whether a player is somebody other than `user`.
pub open spec fn is_not(user: UserId) -> spec_fn(UserId) -> bool {
    |player: UserId| player != user
}

/// The list of ready players without `user`.
pub open spec fn without(players_ready: Seq<UserId>, user: UserId) -> Seq<UserId> {
    players_ready.filter(is_not(user))
}

/// What a toggle of readiness by `user`, a player of a round in the lobby,
/// makes of the round at `tick`: a ready player is no longer ready; a player
/// who is the last one missing starts the level; any other player is ready from
/// now on.
pub open spec fn toggled(
    before: RocketJamRoundView,
    after: RocketJamRoundView,
    user: UserId,
    tick: i32,
) -> bool {
    &&& after.id == before.id
    &&& after.players == before.players
    &&& before.game matches RocketJamView::InLobby { players_ready }
    &&& if players_ready.contains(user) {
        after.game == (RocketJamView::InLobby { players_ready: without(players_ready, user) })
    } else if players_ready.len() == before.players.len() - 1 {
        after.game matches RocketJamView::InLevel(round_state) && level_started(
            before.players,
            round_state,
            tick,
        )
    } else {
        after.game == (RocketJamView::InLobby { players_ready: players_ready.push(user) })
    }
}

/// The toggle of `user` starts the level: the round is in the lobby, `user`
/// plays in it and is not ready, and everybody else is.
pub open spec fn completes_lobby(round: RocketJamRoundView, user: UserId) -> bool {
    &&& round.game matches RocketJamView::InLobby { players_ready }
    &&& round.players.contains(user)
    &&& !players_ready.contains(user)
    &&& players_ready.len() == round.players.len() - 1
}

fn contains_user(users: &Vec<UserId>, user_id: UserId) -> (found: bool)
    ensures
        found == users@.contains(user_id),
{
    let mut i: usize = 0;
    while i < users.len()
        invariant
            i <= users.len(),
            forall|j: int| 0 <= j < i ==> users@[j] != user_id,
        decreases users.len() - i,
    {
        if users[i] == user_id {
            return true;
        }
        i += 1;
    }
    false
}

fn remove_user(users: &Vec<UserId>, user_id: UserId) -> (rest: Vec<UserId>)
    ensures
        rest@ == without(users@, user_id),
        users@.no_duplicates() ==> rest@.no_duplicates(),
        forall|j: int| 0 <= j < rest@.len() ==> users@.contains(#[trigger] rest@[j]),
{
    let mut rest: Vec<UserId> = Vec::new();
    let ghost mut origin: Seq<int> = Seq::empty();
    let mut i: usize = 0;
    proof {
        reveal(Seq::filter);
        assert(users@.take(0) =~= Seq::empty());
    }
    while i < users.len()
        invariant
            i <= users.len(),
            rest@ == without(users@.take(i as int), user_id),
            origin.len() == rest@.len(),
            forall|j: int|
                0 <= j < origin.len() ==> 0 <= (#[trigger] origin[j]) < i && rest@[j]
                    == users@[origin[j]],
            forall|j: int, k: int| 0 <= j < k < origin.len() ==> origin[j] < origin[k],
        decreases users.len() - i,
    {
        proof {
            reveal(Seq::filter);
            let longer = users@.take(i + 1);
            assert(longer.drop_last() =~= users@.take(i as int));
            assert(longer.last() == users@[i as int]);
        }
        if users[i] != user_id {
            rest.push(users[i]);
            proof {
                origin = origin.push(i as int);
            }
        }
        i += 1;
    }
    proof {
        assert(users@.take(users@.len() as int) =~= users@);
        if users@.no_duplicates() {
            assert forall|j: int, k: int|
                0 <= j < rest@.len() && 0 <= k < rest@.len() && j != k implies rest@[j]
                != rest@[k] by {
                if j < k {
                    assert(origin[j] < origin[k]);
                } else {
                    assert(origin[k] < origin[j]);
                }
            }
        }
        assert forall|j: int| 0 <= j < rest@.len() implies users@.contains(#[trigger] rest@[j]) by {
            assert(users@[origin[j]] == rest@[j]);
        }
    }
    rest
}

/// Toggles the readiness of `user_id`. Nothing happens, and nothing is
/// returned, unless the round is in the lobby and `user_id` plays in it. The
/// toggle of the last player missing starts the level; only that toggle needs
/// room for the deadline of the first instructions.
pub fn toggle_ready(
    user_id: UserId,
    round: &RocketJamRound,
    current_tick: i32,
    rng: &mut StdRng,
) -> (outcome: Option<RocketJamRound>)
    requires
        completes_lobby(round@, user_id) ==> current_tick + INSTRUCTION_WINDOW <= i32::MAX,
    ensures
        outcome is Some <==> round@.game is InLobby && round@.players.contains(user_id),
        outcome matches Some(after) ==> toggled(round@, after@, user_id, current_tick),
        outcome matches Some(after) ==> (round@.wf() ==> after@.wf()),
{
    match &round.game {
        RocketJam::InLevel(_) => None,
        RocketJam::InLobby { players_ready } => {
            if !contains_user(&round.players, user_id) {
                return None;
            }
            let game = if contains_user(players_ready, user_id) {
                RocketJam::InLobby { players_ready: remove_user(players_ready, user_id) }
            } else if players_ready.len() == round.players.len() - 1 {
                RocketJam::InLevel(start_level(&round.players, current_tick, rng))
            } else {
                let mut now_ready = copy_users(players_ready);
                now_ready.push(user_id);
                proof {
                    if round@.wf() {
                        assert forall|j: int| 0 <= j < now_ready@.len() implies round@.players.contains(
                        #[trigger] now_ready@[j]) by {
                            if j < players_ready@.len() {
                                assert(now_ready@[j] == players_ready@[j]);
                            }
                        }
                    }
                }
                RocketJam::InLobby { players_ready: now_ready }
            };
            Some(RocketJamRound { id: round.id.clone(), players: copy_users(&round.players), game })
        },
    }
}

/// Readiness fills up one player at a time and trips once. If the players
/// of a round toggle in the order `order`, each of them once, and the first
/// `k` of them are ready, then the next toggle leaves the round in the lobby
/// with the first `k + 1` ready, unless it is the last player's: that one
/// starts the level.
pub proof fn lemma_ready_threshold(
    before: RocketJamRoundView,
    after: RocketJamRoundView,
    order: Seq<UserId>,
    k: int,
    tick: i32,
)
    requires
        order.no_duplicates(),
        order.len() == before.players.len(),
        0 <= k < order.len(),
        before.game == (RocketJamView::InLobby { players_ready: order.take(k) }),
        toggled(before, after, order[k], tick),
    ensures
        k < order.len() - 1 ==> after.game == (RocketJamView::InLobby {
            players_ready: order.take(k + 1),
        }),
        k == order.len() - 1 ==> (after.game matches RocketJamView::InLevel(round_state)
            && level_started(before.players, round_state, tick)),
{
    let ready = order.take(k);
    if ready.contains(order[k]) {
        let j = choose|j: int| 0 <= j < ready.len() && ready[j] == order[k];
        assert(order[j] == order[k]);
    }
    assert(ready.push(order[k]) =~= order.take(k + 1));
}

} // verus!
