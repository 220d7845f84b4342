//! The start of a level: a fresh pool, items for every player, and the
//! first instructions.

use crate::catalog::CATALOG_SIZE;
use crate::dealing::{build_pool, deal_items, dealt, fresh_pool, left_over, taken};
use crate::instructions::{
    generated, has_candidate, lemma_generated_targets_foreign_item, mk_instructions, one_per_user,
};
use crate::round::{
    Instruction, Item, ItemView, PoolEntryView, RoundState, RoundStateView, UserId,
    INSTRUCTION_WINDOW, ITEMS_PER_PLAYER,
};
use crate::seqs::lemma_filter_all;
use rand::rngs::StdRng;
use vstd::prelude::*;

verus! {

/// The test whether a player can be given an instruction.
pub open spec fn eligible(items: Seq<ItemView>) -> spec_fn(UserId) -> bool {
    |user: UserId| has_candidate(items, user)
}

/// `instructions` holds one instruction, issued at `tick`, for every one of
/// `users` who does not own every item, in the order of `users`.
pub open spec fn issued_to(
    instructions: Seq<Instruction>,
    users: Seq<UserId>,
    items: Seq<ItemView>,
    tick: i32,
) -> bool {
    let served = users.filter(eligible(items));
    &&& instructions.len() == served.len()
    &&& forall|j: int|
        0 <= j < served.len() ==> generated(#[trigger] instructions[j], served[j], items, tick)
}

/// Looking one player further, for the filter that `issued_to` speaks of.
pub proof fn lemma_eligible_step(users: Seq<UserId>, i: int, items: Seq<ItemView>)
    requires
        0 <= i < users.len(),
    ensures
        users.take(i + 1).filter(eligible(items)) == if has_candidate(items, users[i]) {
            users.take(i).filter(eligible(items)).push(users[i])
        } else {
            users.take(i).filter(eligible(items))
        },
{
    reveal(Seq::filter);
    let longer = users.take(i + 1);
    assert(longer.drop_last() =~= users.take(i));
    assert(longer.last() == users[i]);
}

/// Issues one instruction to every player who does not own every item.
pub fn issue_all(
    players: &Vec<UserId>,
    items: &Vec<Item>,
    current_tick: i32,
    rng: &mut StdRng,
) -> (instructions: Vec<Instruction>)
    requires
        current_tick + INSTRUCTION_WINDOW <= i32::MAX,
    ensures
        issued_to(instructions@, players@, items.deep_view(), current_tick),
        players@.no_duplicates() ==> one_per_user(instructions@),
{
    let mut instructions: Vec<Instruction> = Vec::new();
    let ghost mut origin: Seq<int> = Seq::empty();
    let mut i: usize = 0;
    proof {
        reveal(Seq::filter);
        assert(players@.take(0) =~= Seq::empty());
    }
    while i < players.len()
        invariant
            i <= players.len(),
            current_tick + INSTRUCTION_WINDOW <= i32::MAX,
            issued_to(instructions@, players@.take(i as int), items.deep_view(), current_tick),
            origin.len() == instructions@.len(),
            forall|j: int|
                0 <= j < origin.len() ==> 0 <= (#[trigger] origin[j]) < i
                    && instructions@[j].user_id == players@[origin[j]],
            forall|j: int, k: int| 0 <= j < k < origin.len() ==> origin[j] < origin[k],
        decreases players.len() - i,
    {
        let ghost served_before = players@.take(i as int).filter(eligible(items.deep_view()));
        let ghost issued_before = instructions@;
        proof {
            lemma_eligible_step(players@, i as int, items.deep_view());
        }
        match mk_instructions(players[i], items, current_tick, rng) {
            Some(instruction) => {
                instructions.push(instruction);
                proof {
                    origin = origin.push(i as int);
                }
            },
            None => {},
        }
        proof {
            let served = players@.take(i + 1).filter(eligible(items.deep_view()));
            assert forall|j: int| 0 <= j < served.len() implies generated(
                #[trigger] instructions@[j],
                served[j],
                items.deep_view(),
                current_tick,
            ) by {
                if j < served_before.len() {
                    assert(served[j] == served_before[j]);
                    assert(instructions@[j] == issued_before[j]);
                }
            }
        }
        i += 1;
    }
    proof {
        assert(players@.take(players@.len() as int) =~= players@);
        if players@.no_duplicates() {
            assert forall|j: int, k: int| 0 <= j < k < instructions@.len() implies instructions@[j].user_id
                != instructions@[k].user_id by {
                assert(origin[j] < origin[k]);
            }
        }
    }
    instructions
}

/// `round_state` is a level as it starts at `tick` for `players`: the items
/// dealt from a fresh pool, the rest of that pool, one instruction for every
/// player who can be given one, and both counters at zero.
pub open spec fn level_started(
    players: Seq<UserId>,
    round_state: RoundStateView,
    tick: i32,
) -> bool {
    &&& exists|pool: Seq<PoolEntryView>|
        #[trigger] fresh_pool(pool) && round_state.items == dealt(players, pool)
            && round_state.available_items == left_over(players, pool)
    &&& issued_to(round_state.instructions, players, round_state.items, tick)
    &&& round_state.instructions_executed == 0
    &&& round_state.instructions_missed == 0
}

/// The items dealt from a fresh pool have identifiers of their own.
pub proof fn lemma_dealt_ids_distinct(players: Seq<UserId>, pool: Seq<PoolEntryView>)
    requires
        fresh_pool(pool),
    ensures
        forall|i: int, j: int|
            0 <= i < j < dealt(players, pool).len() ==> dealt(players, pool)[i].id != dealt(
                players,
                pool,
            )[j].id,
{
    let items = dealt(players, pool);
    assert forall|i: int, j: int| 0 <= i < j < items.len() implies items[i].id != items[j].id by {
        let a = pool.len() - 1 - j;
        let b = pool.len() - 1 - i;
        assert(pool[a].0 != pool[b].0);
    }
}

/// Starts a level for `players`: builds and shuffles the pool, deals the
/// items, and issues the first instructions.
pub fn start_level(players: &Vec<UserId>, current_tick: i32, rng: &mut StdRng) -> (round_state:
    RoundState)
    requires
        current_tick + INSTRUCTION_WINDOW <= i32::MAX,
    ensures
        level_started(players@, round_state@, current_tick),
        players@.no_duplicates() ==> round_state@.wf(),
{
    let mut available_items = build_pool(rng);
    let ghost pool = available_items.deep_view();
    let items = deal_items(players, &mut available_items);
    let instructions = issue_all(players, &items, current_tick, rng);
    let round_state = RoundState {
        items,
        available_items,
        instructions,
        instructions_executed: 0,
        instructions_missed: 0,
    };
    proof {
        assert(fresh_pool(pool));
        lemma_dealt_ids_distinct(players@, pool);
        let served = players@.filter(eligible(round_state@.items));
        assert forall|i: int| 0 <= i < round_state@.instructions.len() implies round_state@.targets_foreign_item(
        #[trigger] round_state@.instructions[i]) by {
            lemma_generated_targets_foreign_item(
                round_state@,
                round_state@.instructions[i],
                served[i],
                current_tick,
            );
        }
    }
    round_state
}

/// A level starts with `ITEMS_PER_PLAYER` items for every player, as far as
/// the catalogue reaches, dealt in the order of the players; and, where two
/// or more play, with exactly one instruction for every player, in the order
/// of the players.
pub proof fn lemma_level_start_counts(
    players: Seq<UserId>,
    round_state: RoundStateView,
    tick: i32,
)
    requires
        players.no_duplicates(),
        level_started(players, round_state, tick),
    ensures
        round_state.items.len() == taken(ITEMS_PER_PLAYER * players.len(), CATALOG_SIZE as int),
        forall|k: int|
            0 <= k < round_state.items.len() ==> (#[trigger] round_state.items[k]).user_id
                == players[k / (ITEMS_PER_PLAYER as int)],
        players.len() >= 2 ==> round_state.instructions.len() == players.len(),
        players.len() >= 2 ==> forall|i: int|
            0 <= i < players.len() ==> (#[trigger] round_state.instructions[i]).user_id
                == players[i],
{
    let items = round_state.items;
    let pool = choose|pool: Seq<PoolEntryView>|
        #[trigger] fresh_pool(pool) && round_state.items == dealt(players, pool)
            && round_state.available_items == left_over(players, pool);
    assert(items.len() == taken(ITEMS_PER_PLAYER * players.len(), CATALOG_SIZE as int));
    if players.len() >= 2 {
        assert(items.len() >= 8);
        assert(items[0].user_id == players[0]);
        assert(items[4].user_id == players[1]);
        assert(players[0] != players[1]);
        assert forall|i: int| 0 <= i < players.len() implies eligible(items)(
            #[trigger] players[i],
        ) by {
            if players[i] != players[0] {
                assert(items[0].user_id != players[i]);
            } else {
                assert(items[4].user_id != players[i]);
            }
        }
        lemma_filter_all(players, eligible(items));
        assert forall|i: int| 0 <= i < players.len() implies (
        #[trigger] round_state.instructions[i]).user_id == players[i] by {
            lemma_generated_targets_foreign_item(
                round_state,
                round_state.instructions[i],
                players[i],
                tick,
            );
        }
    }
}

} // verus!
