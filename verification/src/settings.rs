//! A player changes the setting of an own item.

use crate::instructions::{any_hit, hit_by, lemma_renewal_keeps_wf, reissue, reissued, Cause};
use crate::round::{
    copy_pool, copy_users, Item, ItemId, ItemView, RocketJam, RocketJamRound, RocketJamRoundView,
    RocketJamView, RoundState, RoundStateView, UserId, INSTRUCTION_WINDOW,
};
use crate::seqs::lemma_deep_view_push;
use rand::rngs::StdRng;
use vstd::prelude::*;

verus! {

/// `user` owns an item with identifier `id`.
pub open spec fn owns_item(items: Seq<ItemView>, user: UserId, id: ItemId) -> bool {
    exists|k: int| 0 <= k < items.len() && (#[trigger] items[k]).id == id && items[k].user_id == user
}

/// The item after `user` has set item `id` to `value`: changed if it is that
/// item and `user` owns it.
pub open spec fn set_to(item: ItemView, user: UserId, id: ItemId, value: u8) -> ItemView {
    if item.id == id && item.user_id == user {
        ItemView {
            id: item.id,
            label: item.label,
            state: value,
            user_id: item.user_id,
            max_value: item.max_value,
        }
    } else {
        item
    }
}

/// The items after `user` has set item `id` to `value`.
pub open spec fn with_setting(
    items: Seq<ItemView>,
    user: UserId,
    id: ItemId,
    value: u8,
) -> Seq<ItemView> {
    Seq::new(items.len(), |k: int| set_to(items[k], user, id, value))
}

/// What a level becomes at `tick` when `user` sets the own item `id` to
/// `value`: the item takes the setting; every instruction that asks for just
/// that setting on that item counts as executed and is replaced or leaves.
pub open spec fn setting_changed(
    before: RoundStateView,
    after: RoundStateView,
    user: UserId,
    id: ItemId,
    value: u8,
    tick: i32,
) -> bool {
    let cause = Cause::Executed { item_id: id, state: value };
    &&& after.items == with_setting(before.items, user, id, value)
    &&& after.available_items == before.available_items
    &&& after.instructions_missed == before.instructions_missed
    &&& after.instructions_executed == before.instructions_executed + before.instructions.filter(
        hit_by(cause),
    ).len()
    &&& reissued(before.instructions, after.instructions, cause, after.items, tick)
}

/// What a round becomes at `tick` when `user` sets the own item `id` to
/// `value` in a level.
pub open spec fn setting_applied(
    before: RocketJamRoundView,
    after: RocketJamRoundView,
    user: UserId,
    id: ItemId,
    value: u8,
    tick: i32,
) -> bool {
    &&& after.id == before.id
    &&& after.players == before.players
    &&& before.game matches RocketJamView::InLevel(old_state)
    &&& after.game matches RocketJamView::InLevel(new_state)
    &&& setting_changed(old_state, new_state, user, id, value, tick)
}

fn apply_setting(user_id: UserId, item_id: ItemId, value: u8, items: &Vec<Item>) -> (outcome: (
    Vec<Item>,
    bool,
))
    ensures
        outcome.0.deep_view() == with_setting(items.deep_view(), user_id, item_id, value),
        outcome.1 == owns_item(items.deep_view(), user_id, item_id),
{
    let mut changed: Vec<Item> = Vec::new();
    let mut found = false;
    let mut i: usize = 0;
    while i < items.len()
        invariant
            i <= items.len(),
            changed.deep_view() == with_setting(items.deep_view(), user_id, item_id, value).take(
                i as int,
            ),
            found == owns_item(items.deep_view().take(i as int), user_id, item_id),
        decreases items.len() - i,
    {
        let ghost before = changed;
        let ghost shorter = items.deep_view().take(i as int);
        let ghost longer = items.deep_view().take(i + 1);
        let item = &items[i];
        let hit = item.id == item_id && item.user_id == user_id;
        let next = Item {
            id: item.id,
            label: item.label.clone(),
            state: if hit {
                value
            } else {
                item.state
            },
            user_id: item.user_id,
            max_value: item.max_value,
        };
        changed.push(next);
        proof {
            lemma_deep_view_push(before, changed, next);
            assert(changed.deep_view() =~= with_setting(
                items.deep_view(),
                user_id,
                item_id,
                value,
            ).take(i + 1));
            assert(longer[i as int] == items.deep_view()[i as int]);
            if owns_item(shorter, user_id, item_id) {
                let k = choose|k: int|
                    0 <= k < shorter.len() && (#[trigger] shorter[k]).id == item_id
                        && shorter[k].user_id == user_id;
                assert(longer[k] == shorter[k]);
            }
            if owns_item(longer, user_id, item_id) && !hit {
                let k = choose|k: int|
                    0 <= k < longer.len() && (#[trigger] longer[k]).id == item_id
                        && longer[k].user_id == user_id;
                assert(shorter[k] == longer[k]);
            }
        }
        if hit {
            found = true;
        }
        i += 1;
    }
    proof {
        assert(items.deep_view().take(items@.len() as int) =~= items.deep_view());
        assert(changed.deep_view() =~= with_setting(items.deep_view(), user_id, item_id, value));
    }
    (changed, found)
}

/// The setting executes an instruction: the round is in a level, `user`
/// owns an item `id`, and some instruction asks for just `value` on it.
pub open spec fn executes_any(
    round: RocketJamRoundView,
    user: UserId,
    id: ItemId,
    value: u8,
) -> bool {
    &&& round.game matches RocketJamView::InLevel(round_state)
    &&& owns_item(round_state.items, user, id)
    &&& any_hit(round_state.instructions, Cause::Executed { item_id: id, state: value })
}

/// Sets the own item `item_id` of `user_id` to `value`. Nothing happens, and
/// nothing is returned, unless the round is in a level and `user_id` owns
/// such an item. Every instruction that asks for just that setting on that
/// item counts as executed and is replaced; only then is room needed for a
/// new deadline and in the counter.
pub fn change_setting(
    user_id: UserId,
    item_id: ItemId,
    value: u8,
    round: &RocketJamRound,
    current_tick: i32,
    rng: &mut StdRng,
) -> (outcome: Option<RocketJamRound>)
    requires
        executes_any(round@, user_id, item_id, value) ==> current_tick + INSTRUCTION_WINDOW
            <= i32::MAX && round@.has_headroom(),
    ensures
        outcome is Some <==> (round@.game matches RocketJamView::InLevel(round_state)
            && owns_item(round_state.items, user_id, item_id)),
        outcome matches Some(after) ==> setting_applied(
            round@,
            after@,
            user_id,
            item_id,
            value,
            current_tick,
        ),
        outcome matches Some(after) ==> (round@.wf() ==> after@.wf()),
{
    match &round.game {
        RocketJam::InLobby { .. } => None,
        RocketJam::InLevel(round_state) => {
            let (items, found) = apply_setting(user_id, item_id, value, &round_state.items);
            if !found {
                return None;
            }
            let cause = Cause::Executed { item_id, state: value };
            let (instructions, hits, _) = reissue(
                &round_state.instructions,
                &items,
                cause,
                current_tick,
                rng,
            );
            let new_state = RoundState {
                available_items: copy_pool(&round_state.available_items),
                items,
                instructions,
                instructions_executed: round_state.instructions_executed + hits,
                instructions_missed: round_state.instructions_missed,
            };
            proof {
                if round_state@.wf() {
                    lemma_renewal_keeps_wf(round_state@, new_state@, current_tick);
                }
            }
            Some(
                RocketJamRound {
                    id: round.id.clone(),
                    players: copy_users(&round.players),
                    game: RocketJam::InLevel(new_state),
                },
            )
        },
    }
}

} // verus!
