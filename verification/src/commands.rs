//! The round as a state machine: what a command of a player makes of it.

use crate::lobby::{completes_lobby, toggle_ready, toggled};
use crate::messages::{ClientMessage, ClientMessageView, ToBackend, ToBackendView};
use crate::projection::{state_updates, update_messages};
use crate::round::{RocketJamRound, RocketJamRoundView, RocketJamView, UserId, INSTRUCTION_WINDOW};
use crate::settings::{change_setting, executes_any, owns_item, setting_applied};
use crate::ticking::ticked;
use rand::rngs::StdRng;
use vstd::prelude::*;

verus! {

/// The command changes a round: a toggle of readiness by a player of a round
/// in the lobby, or a change of setting on an own item in a level.
pub open spec fn accepts(round: RocketJamRoundView, user: UserId, msg: ToBackendView) -> bool {
    match msg {
        ToBackendView::ToggleReady => round.game is InLobby && round.players.contains(user),
        ToBackendView::ChangeSetting { item_id, value } => round.game matches RocketJamView::InLevel(
            round_state,
        ) && owns_item(round_state.items, user, item_id),
        _ => false,
    }
}

/// What a command of `user` makes of a round at `tick`.
pub open spec fn updated(
    before: RocketJamRoundView,
    after: RocketJamRoundView,
    user: UserId,
    msg: ToBackendView,
    tick: i32,
) -> bool {
    if accepts(before, user, msg) {
        match msg {
            ToBackendView::ToggleReady => toggled(before, after, user, tick),
            ToBackendView::ChangeSetting { item_id, value } => setting_applied(
                before,
                after,
                user,
                item_id,
                value,
                tick,
            ),
            _ => false,
        }
    } else {
        after == before
    }
}

/// The messages a command gives rise to: one update for every player if the
/// command changed the round, and none otherwise.
pub open spec fn command_messages(
    before: RocketJamRoundView,
    after: RocketJamRoundView,
    user: UserId,
    msg: ToBackendView,
) -> Seq<ClientMessageView> {
    if accepts(before, user, msg) {
        update_messages(after)
    } else {
        Seq::empty()
    }
}

/// The command has an instruction issued: a toggle that starts the level, or
/// a setting that executes an instruction.
pub open spec fn issues_any(round: RocketJamRoundView, user: UserId, msg: ToBackendView) -> bool {
    match msg {
        ToBackendView::ToggleReady => completes_lobby(round, user),
        ToBackendView::ChangeSetting { item_id, value } => executes_any(
            round,
            user,
            item_id,
            value,
        ),
        _ => false,
    }
}

/// Applies a command of `user_id` to a round. A command that does not fit
/// the round's phase, comes from somebody who does not play in it, or names
/// an item that the player does not own leaves the round as it is and gives
/// no message. Only a command that has an instruction issued needs room for
/// a deadline and in the counters.
pub fn update_round(
    user_id: UserId,
    round: &RocketJamRound,
    msg: &ToBackend,
    current_tick: i32,
    rng: &mut StdRng,
) -> (outcome: (RocketJamRound, Vec<ClientMessage>))
    requires
        issues_any(round@, user_id, msg@) ==> current_tick + INSTRUCTION_WINDOW <= i32::MAX
            && round@.has_headroom(),
    ensures
        updated(round@, outcome.0@, user_id, msg@, current_tick),
        outcome.1.deep_view() == command_messages(round@, outcome.0@, user_id, msg@),
        round@.wf() ==> outcome.0@.wf(),
{
    let changed = match msg {
        ToBackend::ToggleReady => toggle_ready(user_id, round, current_tick, rng),
        ToBackend::ChangeSetting { item_id, value } => change_setting(
            user_id,
            *item_id,
            *value,
            round,
            current_tick,
            rng,
        ),
        _ => None,
    };
    match changed {
        Some(updated_round) => {
            let messages = state_updates(&updated_round);
            (updated_round, messages)
        },
        None => {
            let none: Vec<ClientMessage> = Vec::new();
            assert(none.deep_view() =~= Seq::empty());
            (round.clone(), none)
        },
    }
}

/// A round that plays a level never returns to the lobby, whatever command or
/// tick comes.
pub proof fn lemma_level_is_final(
    before: RocketJamRoundView,
    after: RocketJamRoundView,
    user: UserId,
    msg: ToBackendView,
    tick: i32,
)
    requires
        before.game is InLevel,
        updated(before, after, user, msg, tick) || ticked(before, after, tick),
    ensures
        after.game is InLevel,
{
}

} // verus!
