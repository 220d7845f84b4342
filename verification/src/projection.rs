//! What each player is shown of a round: in the lobby two counts, in a level
//! the player's own items and the player's own instruction.

use crate::messages::{
    ClientMessage, ClientMessageView, ClientState, ClientStateView, ClientUiItem,
    ClientUiItemView, ToClient, ToClientView,
};
use crate::round::{
    Instruction, Item, ItemId, ItemView, RocketJam, RocketJamRound,
    RocketJamRoundView, RocketJamView, RoundState, RoundStateView, UserId,
};
use crate::seqs::{lemma_deep_view_push, lemma_filter_none, lemma_filter_origin};
use crate::text::{turn_string, turn_text};
use vstd::prelude::*;

verus! {

/// An item as its owner sees it: everything but the owner.
pub open spec fn ui_item_of(item: ItemView) -> ClientUiItemView {
    ClientUiItemView {
        id: item.id,
        label: item.label,
        state: item.state,
        max_value: item.max_value,
    }
}

/// The test whether an item belongs to `user`.
pub open spec fn owned_by(user: UserId) -> spec_fn(ItemView) -> bool {
    |item: ItemView| item.user_id == user
}

/// The items of `user`, in the level's order, as their owner sees them.
pub open spec fn visible_items(items: Seq<ItemView>, user: UserId) -> Seq<ClientUiItemView> {
    items.filter(owned_by(user)).map_values(|item: ItemView| ui_item_of(item))
}

/// `i` is the place of the first instruction for `user`.
pub open spec fn first_instruction_at(
    instructions: Seq<Instruction>,
    user: UserId,
    i: int,
) -> bool {
    &&& 0 <= i < instructions.len()
    &&& instructions[i].user_id == user
    &&& forall|j: int| 0 <= j < i ==> (#[trigger] instructions[j]).user_id != user
}

/// The first instruction for `user`, if there is one.
pub open spec fn current_instruction(
    instructions: Seq<Instruction>,
    user: UserId,
) -> Option<Instruction> {
    if exists|i: int| first_instruction_at(instructions, user, i) {
        Some(instructions[choose|i: int| first_instruction_at(instructions, user, i)])
    } else {
        None
    }
}

/// `k` is the place of the first item with identifier `id`.
pub open spec fn first_item_at(items: Seq<ItemView>, id: ItemId, k: int) -> bool {
    &&& 0 <= k < items.len()
    &&& items[k].id == id
    &&& forall|j: int| 0 <= j < k ==> (#[trigger] items[j]).id != id
}

/// The first item with identifier `id`, if there is one.
pub open spec fn item_by_id(items: Seq<ItemView>, id: ItemId) -> Option<ItemView> {
    if exists|k: int| first_item_at(items, id, k) {
        Some(items[choose|k: int| first_item_at(items, id, k)])
    } else {
        None
    }
}

/// The line a player reads: the wording of the player's first instruction,
/// and nothing where the player has no instruction or the instruction names
/// no item of the level.
pub open spec fn instruction_line(round_state: RoundStateView, user: UserId) -> Seq<char> {
    match current_instruction(round_state.instructions, user) {
        Some(instruction) => match item_by_id(round_state.items, instruction.item_id) {
            Some(item) => turn_text(item.label, instruction.state),
            None => Seq::empty(),
        },
        None => Seq::empty(),
    }
}

/// What `user` is shown of a level.
pub open spec fn level_view_for(user: UserId, round_state: RoundStateView) -> ClientStateView {
    ClientStateView::InGame {
        current_instruction: instruction_line(round_state, user),
        ui_items: visible_items(round_state.items, user),
        instructions_executed: round_state.instructions_executed,
        instructions_missed: round_state.instructions_missed,
    }
}

/// What `user` is shown of a round.
pub open spec fn client_view_for(user: UserId, round: RocketJamRoundView) -> ClientStateView {
    match round.game {
        RocketJamView::InLobby { players_ready } => ClientStateView::Lobby {
            player_count: round.players.len() as usize,
            player_ready_count: players_ready.len() as usize,
        },
        RocketJamView::InLevel(round_state) => level_view_for(user, round_state),
    }
}

/// One update for every player of the round, in the order of the players,
/// each showing the round as that player sees it.
pub open spec fn update_messages(round: RocketJamRoundView) -> Seq<ClientMessageView> {
    Seq::new(
        round.players.len(),
        |i: int|
            (
                round.players[i],
                ToClientView::UpdateGameState {
                    client_state: client_view_for(round.players[i], round),
                },
            ),
    )
}

/// Looking one item further adds that item to what its owner sees, and adds
/// nothing for anybody else.
pub proof fn lemma_visible_items_step(items: Seq<ItemView>, i: int, user: UserId)
    requires
        0 <= i < items.len(),
    ensures
        visible_items(items.take(i + 1), user) == if items[i].user_id == user {
            visible_items(items.take(i), user).push(ui_item_of(items[i]))
        } else {
            visible_items(items.take(i), user)
        },
{
    reveal(Seq::filter);
    let longer = items.take(i + 1);
    assert(longer.drop_last() =~= items.take(i));
    assert(longer.last() == items[i]);
    if items[i].user_id == user {
        assert(visible_items(longer, user) =~= visible_items(items.take(i), user).push(
            ui_item_of(items[i]),
        ));
    }
}

fn own_items(user_id: UserId, items: &Vec<Item>) -> (ui_items: Vec<ClientUiItem>)
    ensures
        ui_items.deep_view() == visible_items(items.deep_view(), user_id),
{
    let mut ui_items: Vec<ClientUiItem> = Vec::new();
    let mut i: usize = 0;
    proof {
        reveal(Seq::filter);
        assert(items.deep_view().take(0) =~= Seq::empty());
        assert(ui_items.deep_view() =~= visible_items(items.deep_view().take(0), user_id));
    }
    while i < items.len()
        invariant
            i <= items.len(),
            ui_items.deep_view() == visible_items(items.deep_view().take(i as int), user_id),
        decreases items.len() - i,
    {
        proof {
            lemma_visible_items_step(items.deep_view(), i as int, user_id);
        }
        if items[i].user_id == user_id {
            let ghost before = ui_items;
            let ui_item = ClientUiItem {
                id: items[i].id,
                label: items[i].label.clone(),
                state: items[i].state,
                max_value: items[i].max_value,
            };
            ui_items.push(ui_item);
            proof {
                lemma_deep_view_push(before, ui_items, ui_item);
            }
        }
        i += 1;
    }
    assert(items.deep_view().take(items.len() as int) =~= items.deep_view());
    ui_items
}

fn find_instruction(user_id: UserId, instructions: &Vec<Instruction>) -> (found: Option<
    Instruction,
>)
    ensures
        found == current_instruction(instructions@, user_id),
{
    let mut i: usize = 0;
    while i < instructions.len()
        invariant
            i <= instructions.len(),
            forall|j: int| 0 <= j < i ==> (#[trigger] instructions@[j]).user_id != user_id,
        decreases instructions.len() - i,
    {
        if instructions[i].user_id == user_id {
            assert(first_instruction_at(instructions@, user_id, i as int));
            return Some(instructions[i]);
        }
        i += 1;
    }
    None
}

fn find_label(item_id: ItemId, items: &Vec<Item>) -> (found: Option<String>)
    ensures
        match item_by_id(items.deep_view(), item_id) {
            Some(item) => found matches Some(label) && label@ == item.label,
            None => found is None,
        },
{
    let mut i: usize = 0;
    while i < items.len()
        invariant
            i <= items.len(),
            forall|j: int| 0 <= j < i ==> (#[trigger] items.deep_view()[j]).id != item_id,
        decreases items.len() - i,
    {
        if items[i].id == item_id {
            assert(first_item_at(items.deep_view(), item_id, i as int));
            return Some(items[i].label.clone());
        }
        i += 1;
    }
    None
}

/// What `user_id` is shown of a level: the player's own items, the wording of
/// the player's own instruction, and the two counts.
pub fn level_for_user(user_id: UserId, round_state: &RoundState) -> (shown: Option<ClientState>)
    ensures
        shown matches Some(client_state) && client_state@ == level_view_for(
            user_id,
            round_state@,
        ),
{
    let ui_items = own_items(user_id, &round_state.items);
    let current_instruction = match find_instruction(user_id, &round_state.instructions) {
        Some(instruction) => match find_label(instruction.item_id, &round_state.items) {
            Some(label) => turn_string(&label, instruction.state),
            None => String::new(),
        },
        None => String::new(),
    };
    Some(
        ClientState::InGame {
            current_instruction,
            ui_items,
            instructions_executed: round_state.instructions_executed,
            instructions_missed: round_state.instructions_missed,
        },
    )
}

/// What `user_id` is shown of a round.
pub fn client_state_for_user(user_id: UserId, round: &RocketJamRound) -> (shown: Option<
    ClientState,
>)
    ensures
        shown matches Some(client_state) && client_state@ == client_view_for(user_id, round@),
{
    match &round.game {
        RocketJam::InLobby { players_ready } => Some(
            ClientState::Lobby {
                player_count: round.players.len(),
                player_ready_count: players_ready.len(),
            },
        ),
        RocketJam::InLevel(round_state) => level_for_user(user_id, round_state),
    }
}

/// One update for each of the first `count` players of the round, each
/// showing the round as that player sees it.
pub(crate) fn updates_for_first(round: &RocketJamRound, count: usize) -> (messages: Vec<ClientMessage>)
    requires
        count <= round@.players.len(),
    ensures
        messages.deep_view() == update_messages(round@).take(count as int),
{
    let mut messages: Vec<ClientMessage> = Vec::new();
    let mut i: usize = 0;
    assert(messages.deep_view() =~= update_messages(round@).take(0));
    while i < count
        invariant
            i <= count <= round.players.len(),
            messages.deep_view() == update_messages(round@).take(i as int),
        decreases count - i,
    {
        let user_id = round.players[i];
        match client_state_for_user(user_id, round) {
            Some(client_state) => {
                let ghost before = messages;
                let message = (user_id, ToClient::UpdateGameState { client_state });
                messages.push(message);
                proof {
                    lemma_deep_view_push(before, messages, message);
                    assert(messages.deep_view() =~= update_messages(round@).take(i + 1));
                }
            },
            None => {
                assert(false);
            },
        }
        i += 1;
    }
    messages
}

/// One update for every player of the round, each showing the round as that
/// player sees it.
pub fn state_updates(round: &RocketJamRound) -> (messages: Vec<ClientMessage>)
    ensures
        messages.deep_view() == update_messages(round@),
{
    let messages = updates_for_first(round, round.players.len());
    assert(update_messages(round@).take(round@.players.len() as int) =~= update_messages(round@));
    messages
}

/// The test whether an instruction is for `user`.
pub open spec fn meant_for(user: UserId) -> spec_fn(Instruction) -> bool {
    |instruction: Instruction| instruction.user_id == user
}

/// The level with only the instructions for `user` left in it.
pub open spec fn only_instructions_for(round_state: RoundStateView, user: UserId) -> RoundStateView {
    RoundStateView {
        available_items: round_state.available_items,
        items: round_state.items,
        instructions: round_state.instructions.filter(meant_for(user)),
        instructions_executed: round_state.instructions_executed,
        instructions_missed: round_state.instructions_missed,
    }
}

/// Where some instruction is for `user`, one of them is the first.
pub proof fn lemma_first_instruction_exists(instructions: Seq<Instruction>, user: UserId, a: int)
    requires
        0 <= a < instructions.len(),
        instructions[a].user_id == user,
    ensures
        exists|i: int| first_instruction_at(instructions, user, i),
    decreases a,
{
    if forall|j: int| 0 <= j < a ==> (#[trigger] instructions[j]).user_id != user {
        assert(first_instruction_at(instructions, user, a));
    } else {
        let j = choose|j: int| 0 <= j < a && (#[trigger] instructions[j]).user_id == user;
        lemma_first_instruction_exists(instructions, user, j);
    }
}

/// `shown` is how its owner sees one of the items that `user` owns.
pub open spec fn shows_item_of(
    items: Seq<ItemView>,
    user: UserId,
    shown: ClientUiItemView,
) -> bool {
    exists|k: int|
        0 <= k < items.len() && (#[trigger] items[k]).user_id == user && shown == ui_item_of(
            items[k],
        )
}

/// A player is shown nothing of anybody else: every item shown is an item
/// the viewer owns; the instruction shown is one for the viewer; and the
/// view stays the same when the instructions of all other players are taken
/// out of the level.
pub proof fn lemma_viewer_isolation(viewer: UserId, round_state: RoundStateView)
    ensures
        forall|j: int|
            0 <= j < visible_items(round_state.items, viewer).len() ==> shows_item_of(
                round_state.items,
                viewer,
                #[trigger] visible_items(round_state.items, viewer)[j],
            ),
        current_instruction(round_state.instructions, viewer) matches Some(instruction)
            ==> instruction.user_id == viewer,
        level_view_for(viewer, round_state) == level_view_for(
            viewer,
            only_instructions_for(round_state, viewer),
        ),
{
    let items = round_state.items;
    let own = items.filter(owned_by(viewer));
    let item_origin = lemma_filter_origin(items, owned_by(viewer));
    assert forall|j: int| 0 <= j < visible_items(items, viewer).len() implies shows_item_of(
        items,
        viewer,
        #[trigger] visible_items(items, viewer)[j],
    ) by {
        items.lemma_filter_pred(owned_by(viewer), j);
        assert(items[item_origin[j]] == own[j]);
    }
    let all = round_state.instructions;
    let mine = all.filter(meant_for(viewer));
    let origin = lemma_filter_origin(all, meant_for(viewer));
    if exists|i: int| first_instruction_at(all, viewer, i) {
        let i = choose|i: int| first_instruction_at(all, viewer, i);
        assert(meant_for(viewer)(all[i]));
        let j = choose|j: int| 0 <= j < origin.len() && origin[j] == i;
        if j > 0 {
            assert(origin[0] < origin[j]);
            all.lemma_filter_pred(meant_for(viewer), 0);
            assert(all[origin[0]] == mine[0]);
        }
        assert(mine[0] == all[i]);
        assert(first_instruction_at(mine, viewer, 0));
        let chosen = choose|c: int| first_instruction_at(mine, viewer, c);
        assert(chosen == 0);
    } else {
        assert forall|k: int| 0 <= k < all.len() implies !meant_for(viewer)(#[trigger] all[k]) by {
            if all[k].user_id == viewer {
                lemma_first_instruction_exists(all, viewer, k);
            }
        }
        lemma_filter_none(all, meant_for(viewer));
    }
    assert(current_instruction(all, viewer) == current_instruction(mine, viewer));
}

} // verus!
