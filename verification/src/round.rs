//! The data of one round and the mathematical model the contracts speak of.

use crate::seqs::lemma_deep_view_push;
use vstd::prelude::*;

verus! {

/// Identifies an authenticated player.
pub type UserId = i32;

/// Identifies an item within one round.
pub type ItemId = usize;

/// Identifies a round; the textual form of a random identifier.
pub type RoundId = String;

/// An item that nobody owns yet: identifier, label and largest setting.
pub type PoolEntry = (ItemId, String, u8);

/// Model of a [`PoolEntry`].
pub type PoolEntryView = (ItemId, Seq<char>, u8);

/// How many items every player is dealt when a level starts.
pub const ITEMS_PER_PLAYER: usize = 4;

/// How many ticks an instruction stays alive.
pub const INSTRUCTION_WINDOW: i32 = 5;

/// A device with one setting, owned by one player.
#[derive(Debug, PartialEq)]
pub struct Item {
    pub id: ItemId,
    pub label: String,
    pub state: u8,
    pub user_id: UserId,
    pub max_value: u8,
}

/// Model of an [`Item`].
pub struct ItemView {
    pub id: ItemId,
    pub label: Seq<char>,
    pub state: u8,
    pub user_id: UserId,
    pub max_value: u8,
}

impl View for Item {
    type V = ItemView;

    open spec fn view(&self) -> ItemView {
        ItemView {
            id: self.id,
            label: self.label@,
            state: self.state,
            user_id: self.user_id,
            max_value: self.max_value,
        }
    }
}

impl DeepView for Item {
    type V = ItemView;

    open spec fn deep_view(&self) -> ItemView {
        self@
    }
}

impl Clone for Item {
    fn clone(&self) -> (copy: Self)
        ensures
            copy@ == self@,
    {
        Item {
            id: self.id,
            label: self.label.clone(),
            state: self.state,
            user_id: self.user_id,
            max_value: self.max_value,
        }
    }
}

/// Tells one player to bring somebody else's item to a setting before a tick.
#[derive(Clone, Copy, Debug, PartialEq, Eq, Structural)]
pub struct Instruction {
    pub user_id: UserId,
    pub item_id: ItemId,
    pub state: u8,
    pub eol_tick: i32,
}

impl DeepView for Instruction {
    type V = Instruction;

    open spec fn deep_view(&self) -> Instruction {
        *self
    }
}

} // verus!

verus! {

/// Copies a list of player identifiers.
pub(crate) fn copy_users(users: &Vec<UserId>) -> (copy: Vec<UserId>)
    ensures
        copy@ == users@,
{
    let mut copy: Vec<UserId> = Vec::new();
    let mut i: usize = 0;
    while i < users.len()
        invariant
            i <= users.len(),
            copy@ == users@.take(i as int),
        decreases users.len() - i,
    {
        copy.push(users[i]);
        i += 1;
    }
    copy
}

/// Copies a list of instructions.
pub(crate) fn copy_instructions(instructions: &Vec<Instruction>) -> (copy: Vec<Instruction>)
    ensures
        copy@ == instructions@,
{
    let mut copy: Vec<Instruction> = Vec::new();
    let mut i: usize = 0;
    while i < instructions.len()
        invariant
            i <= instructions.len(),
            copy@ == instructions@.take(i as int),
        decreases instructions.len() - i,
    {
        copy.push(instructions[i]);
        i += 1;
    }
    copy
}

/// Copies a list of items.
pub(crate) fn copy_items(items: &Vec<Item>) -> (copy: Vec<Item>)
    ensures
        copy.deep_view() == items.deep_view(),
{
    let mut copy: Vec<Item> = Vec::new();
    let mut i: usize = 0;
    while i < items.len()
        invariant
            i <= items.len(),
            copy.deep_view() == items.deep_view().take(i as int),
        decreases items.len() - i,
    {
        let ghost before = copy;
        let item = items[i].clone();
        copy.push(item);
        i += 1;
        proof {
            lemma_deep_view_push(before, copy, item);
            assert(copy.deep_view() =~= items.deep_view().take(i as int));
        }
    }
    copy
}

/// Copies an item pool.
pub(crate) fn copy_pool(pool: &Vec<PoolEntry>) -> (copy: Vec<PoolEntry>)
    ensures
        copy.deep_view() == pool.deep_view(),
{
    let mut copy: Vec<PoolEntry> = Vec::new();
    let mut i: usize = 0;
    while i < pool.len()
        invariant
            i <= pool.len(),
            copy.deep_view() == pool.deep_view().take(i as int),
        decreases pool.len() - i,
    {
        let ghost before = copy;
        let entry = (pool[i].0, pool[i].1.clone(), pool[i].2);
        copy.push(entry);
        i += 1;
        proof {
            lemma_deep_view_push(before, copy, entry);
            assert(copy.deep_view() =~= pool.deep_view().take(i as int));
        }
    }
    copy
}

/// What a round holds once its level has started.
#[derive(Debug, PartialEq)]
pub struct RoundState {
    pub available_items: Vec<PoolEntry>,
    pub items: Vec<Item>,
    pub instructions: Vec<Instruction>,
    pub instructions_executed: usize,
    pub instructions_missed: usize,
}

/// Model of a [`RoundState`].
pub struct RoundStateView {
    pub available_items: Seq<PoolEntryView>,
    pub items: Seq<ItemView>,
    pub instructions: Seq<Instruction>,
    pub instructions_executed: usize,
    pub instructions_missed: usize,
}

impl RoundStateView {
    /// No two items share an identifier.
    pub open spec fn item_ids_distinct(self) -> bool {
        forall|i: int, j: int|
            0 <= i < j < self.items.len() ==> self.items[i].id != self.items[j].id
    }

    /// The instruction names an item of this level that its player does not own.
    pub open spec fn targets_foreign_item(self, instruction: Instruction) -> bool {
        exists|k: int|
            0 <= k < self.items.len() && #[trigger] self.items[k].id == instruction.item_id
                && self.items[k].user_id != instruction.user_id
    }

    /// No player has two live instructions.
    pub open spec fn one_instruction_per_user(self) -> bool {
        forall|i: int, j: int|
            0 <= i < j < self.instructions.len() ==> self.instructions[i].user_id
                != self.instructions[j].user_id
    }

    /// The two counters can take one more count for every live instruction.
    pub open spec fn has_headroom(self) -> bool {
        &&& self.instructions_executed + self.instructions.len() <= usize::MAX
        &&& self.instructions_missed + self.instructions.len() <= usize::MAX
    }

    /// The invariant of a level: item identifiers are unique, every live
    /// instruction names an item that its player does not own, and no player
    /// has two live instructions.
    pub open spec fn wf(self) -> bool {
        &&& self.item_ids_distinct()
        &&& forall|i: int|
            0 <= i < self.instructions.len() ==> self.targets_foreign_item(
                #[trigger] self.instructions[i],
            )
        &&& self.one_instruction_per_user()
    }
}

impl View for RoundState {
    type V = RoundStateView;

    open spec fn view(&self) -> RoundStateView {
        RoundStateView {
            available_items: self.available_items.deep_view(),
            items: self.items.deep_view(),
            instructions: self.instructions@,
            instructions_executed: self.instructions_executed,
            instructions_missed: self.instructions_missed,
        }
    }
}

impl DeepView for RoundState {
    type V = RoundStateView;

    open spec fn deep_view(&self) -> RoundStateView {
        self@
    }
}

impl Clone for RoundState {
    fn clone(&self) -> (copy: Self)
        ensures
            copy@ == self@,
    {
        RoundState {
            available_items: copy_pool(&self.available_items),
            items: copy_items(&self.items),
            instructions: copy_instructions(&self.instructions),
            instructions_executed: self.instructions_executed,
            instructions_missed: self.instructions_missed,
        }
    }
}

/// The phase of a round: gathering in the lobby, or playing a level.
#[derive(Debug, PartialEq)]
pub enum RocketJam {
    InLobby { players_ready: Vec<UserId> },
    InLevel(RoundState),
}

/// Model of a [`RocketJam`].
pub enum RocketJamView {
    InLobby { players_ready: Seq<UserId> },
    InLevel(RoundStateView),
}

impl View for RocketJam {
    type V = RocketJamView;

    open spec fn view(&self) -> RocketJamView {
        match self {
            RocketJam::InLobby { players_ready } => RocketJamView::InLobby {
                players_ready: players_ready@,
            },
            RocketJam::InLevel(round_state) => RocketJamView::InLevel(round_state@),
        }
    }
}

impl DeepView for RocketJam {
    type V = RocketJamView;

    open spec fn deep_view(&self) -> RocketJamView {
        self@
    }
}

impl Clone for RocketJam {
    fn clone(&self) -> (copy: Self)
        ensures
            copy@ == self@,
    {
        match self {
            RocketJam::InLobby { players_ready } => RocketJam::InLobby {
                players_ready: copy_users(players_ready),
            },
            RocketJam::InLevel(round_state) => RocketJam::InLevel(round_state.clone()),
        }
    }
}

/// One running game: who plays, and in which phase.
#[derive(Debug, PartialEq)]
pub struct RocketJamRound {
    pub id: RoundId,
    pub players: Vec<UserId>,
    pub game: RocketJam,
}

/// Model of a [`RocketJamRound`].
pub struct RocketJamRoundView {
    pub id: Seq<char>,
    pub players: Seq<UserId>,
    pub game: RocketJamView,
}

impl RocketJamRoundView {
    /// In a level, the two counters can take one more count for every live
    /// instruction.
    pub open spec fn has_headroom(self) -> bool {
        self.game matches RocketJamView::InLevel(round_state) ==> round_state.has_headroom()
    }

    /// The invariant of a round: at least one player, no player twice; in the
    /// lobby the ready players are players and none is listed twice; in a
    /// level the level's own invariant.
    pub open spec fn wf(self) -> bool {
        &&& self.players.len() > 0
        &&& self.players.no_duplicates()
        &&& match self.game {
            RocketJamView::InLobby { players_ready } => {
                &&& players_ready.no_duplicates()
                &&& forall|i: int|
                    0 <= i < players_ready.len() ==> self.players.contains(
                        #[trigger] players_ready[i],
                    )
            },
            RocketJamView::InLevel(round_state) => round_state.wf(),
        }
    }
}

impl View for RocketJamRound {
    type V = RocketJamRoundView;

    open spec fn view(&self) -> RocketJamRoundView {
        RocketJamRoundView { id: self.id@, players: self.players@, game: self.game@ }
    }
}

impl DeepView for RocketJamRound {
    type V = RocketJamRoundView;

    open spec fn deep_view(&self) -> RocketJamRoundView {
        self@
    }
}

impl Clone for RocketJamRound {
    fn clone(&self) -> (copy: Self)
        ensures
            copy@ == self@,
    {
        RocketJamRound {
            id: self.id.clone(),
            players: copy_users(&self.players),
            game: self.game.clone(),
        }
    }
}

impl RocketJamRound {
    /// Whether, in a level, the two counters can take one more count for
    /// every live instruction.
    pub fn check_headroom(&self) -> (fits: bool)
        ensures
            fits == self@.has_headroom(),
    {
        match &self.game {
            RocketJam::InLobby { .. } => true,
            RocketJam::InLevel(round_state) => {
                let live = round_state.instructions.len();
                round_state.instructions_executed <= usize::MAX - live
                    && round_state.instructions_missed <= usize::MAX - live
            },
        }
    }
}

} // verus!
