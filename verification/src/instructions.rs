//! Issuing instructions: one player is told to change a setting on an item
//! of somebody else.

use crate::chance::shuffle;
use crate::round::{
    Instruction, Item, ItemId, ItemView, RoundStateView, UserId, INSTRUCTION_WINDOW,
};
use crate::seqs::lemma_rearranged;
use rand::rngs::StdRng;
use vstd::prelude::*;

verus! {

/// The setting an instruction asks for on an item that stands at `state`:
/// on for an item that is off, and off for any other.
pub open spec fn flipped(state: u8) -> u8 {
    if state == 0 {
        1
    } else {
        0
    }
}

/// The instruction that tells `user` to flip `item`, issued at `tick`.
pub open spec fn instruction_for(user: UserId, item: ItemView, tick: i32) -> Instruction {
    Instruction {
        user_id: user,
        item_id: item.id,
        state: flipped(item.state),
        eol_tick: (tick + INSTRUCTION_WINDOW) as i32,
    }
}

/// Some item belongs to somebody other than `user`.
pub open spec fn has_candidate(items: Seq<ItemView>, user: UserId) -> bool {
    exists|k: int| 0 <= k < items.len() && (#[trigger] items[k]).user_id != user
}

/// `instruction` tells `user` to flip one of the items that `user` does not
/// own, and was issued at `tick`.
pub open spec fn generated(
    instruction: Instruction,
    user: UserId,
    items: Seq<ItemView>,
    tick: i32,
) -> bool {
    exists|k: int|
        0 <= k < items.len() && (#[trigger] items[k]).user_id != user && instruction
            == instruction_for(user, items[k], tick)
}

/// The instruction that tells `user_id` to flip `item` within
/// `INSTRUCTION_WINDOW` ticks from `current_tick`.
pub fn instruction_from(user_id: UserId, item: &Item, current_tick: i32) -> (issued: Instruction)
    requires
        current_tick + INSTRUCTION_WINDOW <= i32::MAX,
    ensures
        issued == instruction_for(user_id, item@, current_tick),
{
    let new_state: u8 = if item.state == 0 {
        1
    } else {
        0
    };
    Instruction {
        item_id: item.id,
        user_id,
        state: new_state,
        eol_tick: current_tick + INSTRUCTION_WINDOW,
    }
}

/// The places of the items that `user_id` does not own, in rising order.
pub fn candidate_places(user_id: UserId, items: &Vec<Item>) -> (candidates: Vec<usize>)
    ensures
        forall|j: int|
            0 <= j < candidates@.len() ==> (#[trigger] candidates@[j]) < items@.len()
                && items.deep_view()[candidates@[j] as int].user_id != user_id,
        forall|j: int, k: int| 0 <= j < k < candidates@.len() ==> candidates@[j] < candidates@[k],
        forall|k: int|
            0 <= k < items@.len() && (#[trigger] items.deep_view()[k]).user_id != user_id
                ==> candidates@.contains(k as usize),
{
    let mut candidates: Vec<usize> = Vec::new();
    let mut i: usize = 0;
    while i < items.len()
        invariant
            i <= items.len(),
            forall|j: int|
                0 <= j < candidates@.len() ==> (#[trigger] candidates@[j]) < i
                    && items.deep_view()[candidates@[j] as int].user_id != user_id,
            forall|j: int, k: int|
                0 <= j < k < candidates@.len() ==> candidates@[j] < candidates@[k],
            forall|k: int|
                0 <= k < i && (#[trigger] items.deep_view()[k]).user_id != user_id
                    ==> candidates@.contains(k as usize),
        decreases items.len() - i,
    {
        if items[i].user_id != user_id {
            let ghost before = candidates@;
            candidates.push(i);
            proof {
                assert(candidates@[before.len() as int] == i);
                assert forall|k: int|
                    0 <= k < i + 1 && (#[trigger] items.deep_view()[k]).user_id
                        != user_id implies candidates@.contains(k as usize) by {
                    if k < i {
                        let j = choose|j: int| 0 <= j < before.len() && before[j] == k as usize;
                        assert(candidates@[j] == k as usize);
                    }
                }
            }
        }
        i += 1;
    }
    candidates
}

/// Picks at random an item that `user_id` does not own and tells `user_id` to
/// flip it within `INSTRUCTION_WINDOW` ticks. Where every item is the
/// player's own there is nothing to pick, and no instruction.
pub fn mk_instructions(
    user_id: UserId,
    items: &Vec<Item>,
    current_tick: i32,
    rng: &mut StdRng,
) -> (instruction: Option<Instruction>)
    requires
        current_tick + INSTRUCTION_WINDOW <= i32::MAX,
    ensures
        instruction is Some <==> has_candidate(items.deep_view(), user_id),
        instruction matches Some(issued) ==> generated(
            issued,
            user_id,
            items.deep_view(),
            current_tick,
        ),
{
    let mut candidates = candidate_places(user_id, items);
    let ghost ordered = candidates@;
    shuffle(&mut candidates, rng);
    proof {
        lemma_rearranged(ordered, candidates@);
        if has_candidate(items.deep_view(), user_id) {
            let k = choose|k: int|
                0 <= k < items.deep_view().len() && (#[trigger] items.deep_view()[k]).user_id
                    != user_id;
            assert(ordered.contains(k as usize));
        }
    }
    if candidates.len() == 0 {
        None
    } else {
        let k = candidates[0];
        assert(ordered.contains(k));
        assert(items.deep_view()[k as int] == items@[k as int]@);
        Some(instruction_from(user_id, &items[k], current_tick))
    }
}

/// Why instructions leave a level: their time is up, or the setting they ask
/// for has been made.
#[derive(Clone, Copy, Debug, PartialEq, Eq, Structural)]
pub enum Cause {
    Expired { tick: i32 },
    Executed { item_id: ItemId, state: u8 },
}

impl Cause {
    /// The cause applies to `instruction`.
    pub open spec fn hits(self, instruction: Instruction) -> bool {
        match self {
            Cause::Expired { tick } => instruction.eol_tick == tick,
            Cause::Executed { item_id, state } => instruction.item_id == item_id
                && instruction.state == state,
        }
    }

    /// Whether the cause applies to `instruction`.
    pub fn applies_to(&self, instruction: &Instruction) -> (hit: bool)
        ensures
            hit == self.hits(*instruction),
    {
        match self {
            Cause::Expired { tick } => instruction.eol_tick == *tick,
            Cause::Executed { item_id, state } => instruction.item_id == *item_id
                && instruction.state == *state,
        }
    }
}

/// The test whether `cause` applies to an instruction.
pub open spec fn hit_by(cause: Cause) -> spec_fn(Instruction) -> bool {
    |instruction: Instruction| cause.hits(instruction)
}

/// The test whether an instruction stays in the list, as it is or replaced:
/// one that `cause` applies to stays only if its player can be given another.
pub open spec fn survives(cause: Cause, items: Seq<ItemView>) -> spec_fn(Instruction) -> bool {
    |instruction: Instruction|
        !cause.hits(instruction) || has_candidate(items, instruction.user_id)
}

/// `cause` applies to some instruction.
pub open spec fn any_hit(instructions: Seq<Instruction>, cause: Cause) -> bool {
    exists|i: int| 0 <= i < instructions.len() && cause.hits(#[trigger] instructions[i])
}

/// `cause` applies to some instruction whose player can be given another.
pub open spec fn any_reissued(
    instructions: Seq<Instruction>,
    cause: Cause,
    items: Seq<ItemView>,
) -> bool {
    exists|i: int|
        0 <= i < instructions.len() && cause.hits(#[trigger] instructions[i]) && has_candidate(
            items,
            instructions[i].user_id,
        )
}

/// How a list of instructions changes when `cause` strikes at `tick`: an
/// instruction it does not apply to stays as it is; one it applies to is
/// replaced, in its place, by a new instruction for the same player, or leaves
/// the list if the player owns every item.
pub open spec fn reissued(
    before: Seq<Instruction>,
    after: Seq<Instruction>,
    cause: Cause,
    items: Seq<ItemView>,
    tick: i32,
) -> bool {
    let kept = before.filter(survives(cause, items));
    &&& after.len() == kept.len()
    &&& forall|j: int|
        0 <= j < kept.len() ==> if cause.hits(#[trigger] kept[j]) {
            generated(after[j], kept[j].user_id, items, tick)
        } else {
            after[j] == kept[j]
        }
}

/// No two instructions are for the same player.
pub open spec fn one_per_user(instructions: Seq<Instruction>) -> bool {
    forall|i: int, j: int|
        0 <= i < j < instructions.len() ==> instructions[i].user_id != instructions[j].user_id
}

/// Looking one instruction further, for the two filters that `reissued` and
/// the counters speak of.
pub proof fn lemma_filters_step(
    instructions: Seq<Instruction>,
    i: int,
    cause: Cause,
    items: Seq<ItemView>,
)
    requires
        0 <= i < instructions.len(),
    ensures
        instructions.take(i + 1).filter(hit_by(cause)) == if cause.hits(instructions[i]) {
            instructions.take(i).filter(hit_by(cause)).push(instructions[i])
        } else {
            instructions.take(i).filter(hit_by(cause))
        },
        instructions.take(i + 1).filter(survives(cause, items)) == if !cause.hits(instructions[i])
            || has_candidate(items, instructions[i].user_id) {
            instructions.take(i).filter(survives(cause, items)).push(instructions[i])
        } else {
            instructions.take(i).filter(survives(cause, items))
        },
{
    reveal(Seq::filter);
    let longer = instructions.take(i + 1);
    assert(longer.drop_last() =~= instructions.take(i));
    assert(longer.last() == instructions[i]);
}

/// Goes through the instructions and replaces each one that `cause` applies
/// to by a new instruction for the same player, dropping it where the player
/// owns every item. Returns the new list, how many instructions the cause
/// applied to, and whether any was replaced. The tick has to leave room for
/// a deadline only where the cause applies to some instruction.
pub fn reissue(
    instructions: &Vec<Instruction>,
    items: &Vec<Item>,
    cause: Cause,
    current_tick: i32,
    rng: &mut StdRng,
) -> (outcome: (Vec<Instruction>, usize, bool))
    requires
        any_hit(instructions@, cause) ==> current_tick + INSTRUCTION_WINDOW <= i32::MAX,
    ensures
        reissued(instructions@, outcome.0@, cause, items.deep_view(), current_tick),
        outcome.1 == instructions@.filter(hit_by(cause)).len(),
        outcome.1 <= instructions@.len(),
        outcome.1 > 0 ==> any_hit(instructions@, cause),
        outcome.2 == any_reissued(instructions@, cause, items.deep_view()),
        one_per_user(instructions@) ==> one_per_user(outcome.0@),
        forall|j: int|
            0 <= j < outcome.0@.len() ==> instructions@.contains(#[trigger] outcome.0@[j])
                || generated(
                outcome.0@[j],
                outcome.0@[j].user_id,
                items.deep_view(),
                current_tick,
            ),
{
    let mut renewed: Vec<Instruction> = Vec::new();
    let mut hits: usize = 0;
    let mut updated = false;
    let ghost mut origin: Seq<int> = Seq::empty();
    let mut i: usize = 0;
    proof {
        reveal(Seq::filter);
        assert(instructions@.take(0) =~= Seq::empty());
    }
    while i < instructions.len()
        invariant
            i <= instructions.len(),
            any_hit(instructions@, cause) ==> current_tick + INSTRUCTION_WINDOW <= i32::MAX,
            hits <= i,
            hits > 0 ==> any_hit(instructions@, cause),
            reissued(
                instructions@.take(i as int),
                renewed@,
                cause,
                items.deep_view(),
                current_tick,
            ),
            hits == instructions@.take(i as int).filter(hit_by(cause)).len(),
            updated == any_reissued(instructions@.take(i as int), cause, items.deep_view()),
            origin.len() == renewed@.len(),
            forall|j: int|
                0 <= j < origin.len() ==> 0 <= (#[trigger] origin[j]) < i && renewed@[j].user_id
                    == instructions@[origin[j]].user_id,
            forall|j: int, k: int| 0 <= j < k < origin.len() ==> origin[j] < origin[k],
            forall|j: int|
                0 <= j < renewed@.len() ==> instructions@.contains(#[trigger] renewed@[j])
                    || generated(
                    renewed@[j],
                    renewed@[j].user_id,
                    items.deep_view(),
                    current_tick,
                ),
        decreases instructions.len() - i,
    {
        let instruction = instructions[i];
        let ghost shorter = instructions@.take(i as int);
        let ghost longer = instructions@.take(i + 1);
        let ghost kept_before = shorter.filter(survives(cause, items.deep_view()));
        let ghost renewed_before = renewed@;
        proof {
            lemma_filters_step(instructions@, i as int, cause, items.deep_view());
            assert(forall|j: int| 0 <= j < i ==> longer[j] == shorter[j]);
            assert(longer[i as int] == instruction);
        }
        if cause.applies_to(&instruction) {
            assert(cause.hits(instructions@[i as int]));
            hits += 1;
            match mk_instructions(instruction.user_id, items, current_tick, rng) {
                Some(replacement) => {
                    renewed.push(replacement);
                    updated = true;
                    proof {
                        origin = origin.push(i as int);
                        assert(any_reissued(longer, cause, items.deep_view()));
                    }
                },
                None => {
                    proof {
                        if any_reissued(longer, cause, items.deep_view()) {
                            let w = choose|w: int|
                                0 <= w < longer.len() && cause.hits(#[trigger] longer[w])
                                    && has_candidate(items.deep_view(), longer[w].user_id);
                            assert(w < i);
                            assert(cause.hits(shorter[w]));
                        }
                    }
                },
            }
        } else {
            renewed.push(instruction);
            proof {
                origin = origin.push(i as int);
                assert(instructions@[i as int] == instruction);
                if any_reissued(longer, cause, items.deep_view()) {
                    let w = choose|w: int|
                        0 <= w < longer.len() && cause.hits(#[trigger] longer[w])
                            && has_candidate(items.deep_view(), longer[w].user_id);
                    assert(w < i);
                    assert(cause.hits(shorter[w]));
                }
            }
        }
        proof {
            if updated && !any_reissued(longer, cause, items.deep_view()) {
                if any_reissued(shorter, cause, items.deep_view()) {
                    let w = choose|w: int|
                        0 <= w < shorter.len() && cause.hits(#[trigger] shorter[w])
                            && has_candidate(items.deep_view(), shorter[w].user_id);
                    assert(cause.hits(longer[w]));
                }
            }
            let kept = longer.filter(survives(cause, items.deep_view()));
            assert forall|j: int| 0 <= j < kept.len() implies if cause.hits(#[trigger] kept[j]) {
                generated(renewed@[j], kept[j].user_id, items.deep_view(), current_tick)
            } else {
                renewed@[j] == kept[j]
            } by {
                if j < kept_before.len() {
                    assert(kept[j] == kept_before[j]);
                    assert(renewed@[j] == renewed_before[j]);
                }
            }
        }
        i += 1;
    }
    proof {
        assert(instructions@.take(instructions@.len() as int) =~= instructions@);
        if one_per_user(instructions@) {
            assert forall|j: int, k: int| 0 <= j < k < renewed@.len() implies renewed@[j].user_id
                != renewed@[k].user_id by {
                assert(origin[j] < origin[k]);
            }
        }
    }
    (renewed, hits, updated)
}

/// An instruction that was issued for a player names an item of somebody else.
pub proof fn lemma_generated_targets_foreign_item(
    round_state: RoundStateView,
    instruction: Instruction,
    user: UserId,
    tick: i32,
)
    requires
        generated(instruction, user, round_state.items, tick),
    ensures
        instruction.user_id == user,
        round_state.targets_foreign_item(instruction),
{
    let k = choose|k: int|
        0 <= k < round_state.items.len() && (#[trigger] round_state.items[k]).user_id != user
            && instruction == instruction_for(
            user,
            round_state.items[k],
            tick,
        );
    assert(round_state.items[k].id == instruction.item_id);
}

/// A level stays well formed when its instructions are renewed over items
/// that kept their identifiers and owners.
pub proof fn lemma_renewal_keeps_wf(before: RoundStateView, after: RoundStateView, tick: i32)
    requires
        before.wf(),
        after.items.len() == before.items.len(),
        forall|k: int|
            0 <= k < before.items.len() ==> (#[trigger] after.items[k]).id == before.items[k].id
                && after.items[k].user_id == before.items[k].user_id,
        one_per_user(after.instructions),
        forall|j: int|
            0 <= j < after.instructions.len() ==> before.instructions.contains(
                #[trigger] after.instructions[j],
            ) || generated(after.instructions[j], after.instructions[j].user_id, after.items, tick),
    ensures
        after.wf(),
{
    assert forall|j: int| 0 <= j < after.instructions.len() implies after.targets_foreign_item(
        #[trigger] after.instructions[j],
    ) by {
        let instruction = after.instructions[j];
        if before.instructions.contains(instruction) {
            let i = choose|i: int|
                0 <= i < before.instructions.len() && before.instructions[i] == instruction;
            assert(before.targets_foreign_item(before.instructions[i]));
            let k = choose|k: int|
                0 <= k < before.items.len() && #[trigger] before.items[k].id
                    == instruction.item_id && before.items[k].user_id != instruction.user_id;
            assert(after.items[k].id == instruction.item_id);
        } else {
            lemma_generated_targets_foreign_item(after, instruction, instruction.user_id, tick);
        }
    }
    assert forall|i: int, j: int| 0 <= i < j < after.items.len() implies after.items[i].id
        != after.items[j].id by {
        assert(before.items[i].id != before.items[j].id);
    }
}

/// No live instruction of a well-formed level names an item of its own
/// player.
pub proof fn lemma_no_self_targeting(round_state: RoundStateView, i: int, k: int)
    requires
        round_state.wf(),
        0 <= i < round_state.instructions.len(),
        0 <= k < round_state.items.len(),
        round_state.items[k].id == round_state.instructions[i].item_id,
    ensures
        round_state.items[k].user_id != round_state.instructions[i].user_id,
{
    let instruction = round_state.instructions[i];
    assert(round_state.targets_foreign_item(instruction));
    let other = choose|other: int|
        0 <= other < round_state.items.len() && #[trigger] round_state.items[other].id
            == instruction.item_id && round_state.items[other].user_id != instruction.user_id;
    if other < k {
        assert(round_state.items[other].id != round_state.items[k].id);
    } else if k < other {
        assert(round_state.items[k].id != round_state.items[other].id);
    }
}

} // verus!
