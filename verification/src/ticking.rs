//! The passing of a tick over a round: instructions whose time is up are
//! missed and replaced.

use crate::instructions::{
    any_hit, any_reissued, generated, has_candidate, hit_by, instruction_for,
    lemma_generated_targets_foreign_item, lemma_renewal_keeps_wf, reissue, reissued, survives,
    Cause,
};
use crate::messages::{ClientMessage, ClientMessageView};
use crate::projection::{state_updates, update_messages};
use crate::round::{
    copy_items, copy_pool, copy_users, RocketJam, RocketJamRound, RocketJamRoundView, RocketJamView,
    RoundState, RoundStateView, INSTRUCTION_WINDOW,
};
use crate::seqs::{lemma_filter_all, lemma_filter_none, lemma_filter_origin};
use rand::rngs::StdRng;
use vstd::prelude::*;

verus! {

/// What a level becomes when tick `tick` passes: every instruction whose time
/// is up counts as missed and is replaced or leaves; nothing else changes.
pub open spec fn expiry_handled(before: RoundStateView, after: RoundStateView, tick: i32) -> bool {
    let cause = Cause::Expired { tick };
    &&& after.items == before.items
    &&& after.available_items == before.available_items
    &&& after.instructions_executed == before.instructions_executed
    &&& after.instructions_missed == before.instructions_missed + before.instructions.filter(
        hit_by(cause),
    ).len()
    &&& reissued(before.instructions, after.instructions, cause, before.items, tick)
}

/// What a round becomes when tick `tick` passes: a lobby stays as it is, a
/// level handles the instructions whose time is up.
pub open spec fn ticked(before: RocketJamRoundView, after: RocketJamRoundView, tick: i32) -> bool {
    &&& after.id == before.id
    &&& after.players == before.players
    &&& match before.game {
        RocketJamView::InLobby { .. } => after.game == before.game,
        RocketJamView::InLevel(old_state) => after.game matches RocketJamView::InLevel(new_state)
            && expiry_handled(old_state, new_state, tick),
    }
}

/// The round is in a level and some instruction whose time is up at `tick` is
/// for a player who can be given another.
pub open spec fn tick_replaces(round: RocketJamRoundView, tick: i32) -> bool {
    round.game matches RocketJamView::InLevel(round_state) && any_reissued(
        round_state.instructions,
        Cause::Expired { tick },
        round_state.items,
    )
}

/// The round is in the lobby, or no instruction's time is up at `tick`.
pub open spec fn idle_at(round: RocketJamRoundView, tick: i32) -> bool {
    round.game matches RocketJamView::InLevel(round_state) ==> forall|i: int|
        0 <= i < round_state.instructions.len() ==> (#[trigger] round_state.instructions[i]).eol_tick
            != tick
}

/// The messages a tick gives rise to: one update for every player if an
/// instruction was replaced, and none otherwise.
pub open spec fn tick_messages(
    before: RocketJamRoundView,
    after: RocketJamRoundView,
    tick: i32,
) -> Seq<ClientMessageView> {
    if tick_replaces(before, tick) {
        update_messages(after)
    } else {
        Seq::empty()
    }
}

/// A tick that finds no instruction whose time is up leaves the level as it is.
pub proof fn lemma_idle_tick(before: RoundStateView, after: RoundStateView, tick: i32)
    requires
        expiry_handled(before, after, tick),
        forall|i: int|
            0 <= i < before.instructions.len() ==> (#[trigger] before.instructions[i]).eol_tick
                != tick,
    ensures
        after == before,
        !any_reissued(before.instructions, Cause::Expired { tick }, before.items),
{
    let cause = Cause::Expired { tick };
    lemma_filter_none(before.instructions, hit_by(cause));
    lemma_filter_all(before.instructions, survives(cause, before.items));
    assert(after.instructions =~= before.instructions);
}

/// Lets tick `current_tick` pass over a round. In a level every instruction
/// whose time is up counts as missed and is replaced by a new one for the
/// same player; if any was replaced, every player is sent an update. Only a
/// tick that finds an instruction whose time is up needs room for a new
/// deadline and in the counters.
pub fn tick_round(round: &RocketJamRound, current_tick: i32, rng: &mut StdRng) -> (outcome: (
    RocketJamRound,
    Vec<ClientMessage>,
))
    requires
        !idle_at(round@, current_tick) ==> current_tick + INSTRUCTION_WINDOW <= i32::MAX
            && round@.has_headroom(),
    ensures
        ticked(round@, outcome.0@, current_tick),
        outcome.1.deep_view() == tick_messages(round@, outcome.0@, current_tick),
        round@.wf() ==> outcome.0@.wf(),
        idle_at(round@, current_tick) ==> outcome.0@ == round@ && outcome.1@.len() == 0,
{
    match &round.game {
        RocketJam::InLevel(round_state) => {
            let cause = Cause::Expired { tick: current_tick };
            proof {
                if any_hit(round_state@.instructions, cause) {
                    let i = choose|i: int|
                        0 <= i < round_state@.instructions.len() && cause.hits(
                            #[trigger] round_state@.instructions[i],
                        );
                    assert(round@.game == RocketJamView::InLevel(round_state@));
                    assert(round@.game->InLevel_0.instructions[i].eol_tick == current_tick);
                    assert(!idle_at(round@, current_tick));
                }
            }
            let (instructions, hits, updated) = reissue(
                &round_state.instructions,
                &round_state.items,
                cause,
                current_tick,
                rng,
            );
            let updated_round_state = RoundState {
                available_items: copy_pool(&round_state.available_items),
                items: copy_items(&round_state.items),
                instructions,
                instructions_executed: round_state.instructions_executed,
                instructions_missed: round_state.instructions_missed + hits,
            };
            proof {
                if round_state@.wf() {
                    lemma_renewal_keeps_wf(round_state@, updated_round_state@, current_tick);
                }
                if idle_at(round@, current_tick) {
                    lemma_idle_tick(round_state@, updated_round_state@, current_tick);
                }
            }
            let updated_round = RocketJamRound {
                id: round.id.clone(),
                players: copy_users(&round.players),
                game: RocketJam::InLevel(updated_round_state),
            };
            if !updated {
                let none: Vec<ClientMessage> = Vec::new();
                assert(none.deep_view() =~= Seq::empty());
                (updated_round, none)
            } else {
                let messages = state_updates(&updated_round);
                (updated_round, messages)
            }
        },
        RocketJam::InLobby { .. } => {
            let none: Vec<ClientMessage> = Vec::new();
            assert(none.deep_view() =~= Seq::empty());
            (round.clone(), none)
        },
    }
}

/// An instruction whose time is up leaves the level and counts as missed,
/// and its player gets exactly one instruction in its stead: a new one,
/// issued at this tick. Only a player who owns every item gets none.
pub proof fn lemma_expiry_replacement(
    before: RoundStateView,
    after: RoundStateView,
    tick: i32,
    i: int,
)
    requires
        before.wf(),
        tick + INSTRUCTION_WINDOW <= i32::MAX,
        expiry_handled(before, after, tick),
        0 <= i < before.instructions.len(),
        before.instructions[i].eol_tick == tick,
    ensures
        !after.instructions.contains(before.instructions[i]),
        after.instructions_missed > before.instructions_missed,
        (forall|other: int|
            0 <= other < before.instructions.len() && other != i ==> (
            #[trigger] before.instructions[other]).eol_tick != tick)
            ==> after.instructions_missed == before.instructions_missed + 1,
        has_candidate(before.items, before.instructions[i].user_id) ==> exists|j: int|
            0 <= j < after.instructions.len() && generated(
                #[trigger] after.instructions[j],
                before.instructions[i].user_id,
                before.items,
                tick,
            ),
        forall|j: int, k: int|
            0 <= j < k < after.instructions.len() ==> !((#[trigger] after.instructions[j]).user_id
                == before.instructions[i].user_id && (#[trigger] after.instructions[k]).user_id
                == before.instructions[i].user_id),
        !has_candidate(before.items, before.instructions[i].user_id) ==> forall|j: int|
            0 <= j < after.instructions.len() ==> (#[trigger] after.instructions[j]).user_id
                != before.instructions[i].user_id,
{
    let cause = Cause::Expired { tick };
    let gone = before.instructions[i];
    let user = gone.user_id;
    let kept = before.instructions.filter(survives(cause, before.items));
    let origin = lemma_filter_origin(before.instructions, survives(cause, before.items));
    let hit_origin = lemma_filter_origin(before.instructions, hit_by(cause));
    // every resulting instruction is for the player of the one it stands for
    assert forall|j: int| 0 <= j < after.instructions.len() implies (
    #[trigger] after.instructions[j]).user_id == before.instructions[origin[j]].user_id
        && after.instructions[j] != gone by {
        assert(kept[j] == before.instructions[origin[j]]);
        if cause.hits(kept[j]) {
            lemma_generated_targets_foreign_item(
                before,
                after.instructions[j],
                kept[j].user_id,
                tick,
            );
            let w = choose|w: int|
                0 <= w < before.items.len() && (#[trigger] before.items[w]).user_id
                    != kept[j].user_id && after.instructions[j]
                    == instruction_for(kept[j].user_id, before.items[w], tick);
            assert(after.instructions[j].eol_tick == tick + INSTRUCTION_WINDOW);
        }
    }
    // the counter
    assert(hit_by(cause)(before.instructions[i]));
    let h = choose|h: int| 0 <= h < hit_origin.len() && hit_origin[h] == i;
    if forall|other: int|
        0 <= other < before.instructions.len() && other != i ==> (
        #[trigger] before.instructions[other]).eol_tick != tick {
        if hit_origin.len() > 1 {
            let other = if h == 0 {
                1int
            } else {
                0int
            };
            assert(hit_origin[other] != hit_origin[h]);
            assert(before.instructions[hit_origin[other]] == before.instructions.filter(
                hit_by(cause),
            )[other]);
            before.instructions.lemma_filter_pred(hit_by(cause), other);
        }
    }
    // at most one instruction for the player
    assert forall|j: int, k: int| 0 <= j < k < after.instructions.len() implies !((
    #[trigger] after.instructions[j]).user_id == user && (
    #[trigger] after.instructions[k]).user_id == user) by {
        assert(origin[j] < origin[k]);
    }
    if has_candidate(before.items, user) {
        assert(survives(cause, before.items)(before.instructions[i]));
        let j = choose|j: int| 0 <= j < origin.len() && origin[j] == i;
        assert(kept[j] == gone);
        assert(generated(after.instructions[j], user, before.items, tick));
    } else {
        assert forall|j: int| 0 <= j < after.instructions.len() implies (
        #[trigger] after.instructions[j]).user_id != user by {
            if after.instructions[j].user_id == user {
                if origin[j] != i {
                    if origin[j] < i {
                        assert(before.instructions[origin[j]].user_id != before.instructions[i].user_id);
                    } else {
                        assert(before.instructions[i].user_id != before.instructions[origin[j]].user_id);
                    }
                } else {
                    assert(kept[j] == gone);
                    before.instructions.lemma_filter_pred(survives(cause, before.items), j);
                }
            }
        }
    }
    if after.instructions.contains(gone) {
        let j = choose|j: int| 0 <= j < after.instructions.len() && after.instructions[j] == gone;
        assert(after.instructions[j] != gone);
    }
}

} // verus!
