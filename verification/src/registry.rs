//! The registry of all rounds: which rounds exist, and which round each
//! player is in.

use crate::chance::fresh_uuid;
use crate::messages::{ClientMessage, ClientMessageView, ToClient, ToClientView};
use crate::projection::{
    client_state_for_user, client_view_for, update_messages, updates_for_first,
};
use crate::round::{
    copy_users, RocketJam, RocketJamRound, RocketJamRoundView, RocketJamView, RoundId, UserId,
    INSTRUCTION_WINDOW,
};
use crate::seqs::lemma_deep_view_push;
use std::collections::HashMap;
use vstd::prelude::*;
use vstd::string::{StrSliceExecFns, StringExecFns};

verus! {

broadcast use vstd::std_specs::hash::group_hash_axioms;

/// All rounds, the round of every player, and the number of ticks so far.
pub struct Model {
    pub games_by_id: Vec<RocketJamRound>,
    pub game_ids_by_user_id: HashMap<UserId, RoundId>,
    pub tick: i32,
}

/// Model of a [`Model`]: the rounds in the order of their creation, the
/// identifier of every player's round, and the tick.
pub struct ModelView {
    pub rounds: Seq<RocketJamRoundView>,
    pub active: Map<UserId, Seq<char>>,
    pub tick: i32,
}

/// The map from players to the text of their round's identifier.
pub open spec fn active_view(index: Map<UserId, RoundId>) -> Map<UserId, Seq<char>> {
    Map::new(|user: UserId| index.contains_key(user), |user: UserId| index[user]@)
}

impl View for Model {
    type V = ModelView;

    open spec fn view(&self) -> ModelView {
        ModelView {
            rounds: self.games_by_id.deep_view(),
            active: active_view(self.game_ids_by_user_id@),
            tick: self.tick,
        }
    }
}

/// `i` is the place of the first round with identifier `id`.
pub open spec fn first_round_at(rounds: Seq<RocketJamRoundView>, id: Seq<char>, i: int) -> bool {
    &&& 0 <= i < rounds.len()
    &&& rounds[i].id == id
    &&& forall|j: int| 0 <= j < i ==> (#[trigger] rounds[j]).id != id
}

/// The place of the first round with identifier `id`, if there is one.
pub open spec fn round_index(rounds: Seq<RocketJamRoundView>, id: Seq<char>) -> Option<int> {
    if exists|i: int| first_round_at(rounds, id, i) {
        Some(choose|i: int| first_round_at(rounds, id, i))
    } else {
        None
    }
}

/// The test whether a round is still in the lobby.
pub open spec fn in_lobby() -> spec_fn(RocketJamRoundView) -> bool {
    |round: RocketJamRoundView| round.game is InLobby
}

impl ModelView {
    /// Some round has identifier `id`.
    pub open spec fn has_round(self, id: Seq<char>) -> bool {
        exists|i: int| 0 <= i < self.rounds.len() && (#[trigger] self.rounds[i]).id == id
    }

    /// Some round has identifier `id` and `user` among its players.
    pub open spec fn hosts(self, user: UserId, id: Seq<char>) -> bool {
        exists|i: int|
            0 <= i < self.rounds.len() && (#[trigger] self.rounds[i]).id == id
                && self.rounds[i].players.contains(user)
    }

    /// `user` is recorded as playing in the round with identifier `id`.
    pub open spec fn records(self, user: UserId, id: Seq<char>) -> bool {
        self.active.contains_key(user) && self.active[user] == id
    }

    /// The round with identifier `id`, if there is one.
    pub open spec fn round_by_id(self, id: Seq<char>) -> Option<RocketJamRoundView> {
        match round_index(self.rounds, id) {
            Some(i) => Some(self.rounds[i]),
            None => None,
        }
    }

    /// The round that `user` is in, if any.
    pub open spec fn active_round(self, user: UserId) -> Option<RocketJamRoundView> {
        if self.active.contains_key(user) {
            self.round_by_id(self.active[user])
        } else {
            None
        }
    }

    /// The identifiers of the rounds that are still in the lobby, in the
    /// order of their creation.
    pub open spec fn joinable(self) -> Seq<Seq<char>> {
        self.rounds.filter(in_lobby()).map_values(|round: RocketJamRoundView| round.id)
    }

    /// The invariant of the registry: every round is well formed; no two
    /// rounds share an identifier; whoever is recorded as playing in a round
    /// is among the players of a round with that identifier; and every player
    /// of every round is recorded as playing in it.
    pub open spec fn wf(self) -> bool {
        &&& forall|i: int| 0 <= i < self.rounds.len() ==> (#[trigger] self.rounds[i]).wf()
        &&& forall|i: int, j: int|
            0 <= i < j < self.rounds.len() ==> (#[trigger] self.rounds[i]).id
                != (#[trigger] self.rounds[j]).id
        &&& forall|user: UserId| #[trigger]
            self.active.contains_key(user) ==> self.hosts(user, self.active[user])
        &&& forall|i: int, p: int|
            0 <= i < self.rounds.len() && 0 <= p < self.rounds[i].players.len() ==> self.records(
                #[trigger] self.rounds[i].players[p],
                self.rounds[i].id,
            )
    }

    /// The count of ticks can go up by one and an instruction issued at the
    /// next tick can still be given its deadline, and every level's counters
    /// can take one more count for every live instruction.
    pub open spec fn within_limits(self) -> bool {
        &&& self.tick + 1 + INSTRUCTION_WINDOW <= i32::MAX
        &&& forall|i: int| 0 <= i < self.rounds.len() ==> (#[trigger] self.rounds[i]).has_headroom()
    }
}

/// A registry without rounds, at tick zero.
pub fn init_model() -> (model: Model)
    ensures
        model@.rounds.len() == 0,
        model@.active == Map::<UserId, Seq<char>>::empty(),
        model@.tick == 0,
        model@.wf(),
        model@.within_limits(),
{
    let model = Model { games_by_id: Vec::new(), game_ids_by_user_id: HashMap::new(), tick: 0 };
    assert(model@.active =~= Map::<UserId, Seq<char>>::empty());
    model
}

/// The place of the round with identifier `round_id`, if there is one.
pub fn find_round_index(round_id: &RoundId, model: &Model) -> (found: Option<usize>)
    ensures
        found matches Some(i) ==> i < model@.rounds.len() && round_index(
            model@.rounds,
            round_id@,
        ) == Some(i as int),
        found is None ==> round_index(model@.rounds, round_id@) is None,
        found is Some <==> model@.has_round(round_id@),
{
    let mut i: usize = 0;
    while i < model.games_by_id.len()
        invariant
            i <= model.games_by_id.len(),
            forall|j: int| 0 <= j < i ==> (#[trigger] model@.rounds[j]).id != round_id@,
        decreases model.games_by_id.len() - i,
    {
        if model.games_by_id[i].id == *round_id {
            assert(first_round_at(model@.rounds, round_id@, i as int));
            return Some(i);
        }
        i += 1;
    }
    None
}

/// A copy of the round with identifier `round_id`, if there is one.
pub fn find_round_by_id(round_id: &RoundId, model: &Model) -> (found: Option<RocketJamRound>)
    ensures
        match model@.round_by_id(round_id@) {
            Some(round) => found matches Some(copy) && copy@ == round,
            None => found is None,
        },
{
    match find_round_index(round_id, model) {
        Some(i) => Some(model.games_by_id[i].clone()),
        None => None,
    }
}

/// The place of the round that `user_id` is in, if any.
pub fn find_active_index(user_id: UserId, model: &Model) -> (found: Option<usize>)
    ensures
        found is Some <==> model@.active_round(user_id) is Some,
        found matches Some(i) ==> i < model@.rounds.len() && model@.active_round(user_id)
            == Some(model@.rounds[i as int]) && round_index(
            model@.rounds,
            model@.active[user_id],
        ) == Some(i as int),
{
    match model.game_ids_by_user_id.get(&user_id) {
        Some(game_id) => find_round_index(game_id, model),
        None => None,
    }
}

/// A copy of the round that `user_id` is in, if any.
pub fn find_game_by_user_id(user_id: &UserId, model: &Model) -> (found: Option<RocketJamRound>)
    ensures
        match model@.active_round(*user_id) {
            Some(round) => found matches Some(copy) && copy@ == round,
            None => found is None,
        },
{
    match find_active_index(*user_id, model) {
        Some(i) => Some(model.games_by_id[i].clone()),
        None => None,
    }
}

/// The message that lists the rounds one can join.
pub open spec fn available_rounds_message(model: ModelView, user: UserId) -> ClientMessageView {
    (user, ToClientView::AvailableRounds { round_ids: model.joinable() })
}

/// Looking one round further, for the list of rounds one can join.
pub proof fn lemma_joinable_step(rounds: Seq<RocketJamRoundView>, i: int)
    requires
        0 <= i < rounds.len(),
    ensures
        rounds.take(i + 1).filter(in_lobby()).map_values(|round: RocketJamRoundView| round.id)
            == if rounds[i].game is InLobby {
            rounds.take(i).filter(in_lobby()).map_values(
                |round: RocketJamRoundView| round.id,
            ).push(rounds[i].id)
        } else {
            rounds.take(i).filter(in_lobby()).map_values(|round: RocketJamRoundView| round.id)
        },
{
    reveal(Seq::filter);
    let longer = rounds.take(i + 1);
    assert(longer.drop_last() =~= rounds.take(i));
    assert(longer.last() == rounds[i]);
    if rounds[i].game is InLobby {
        assert(longer.filter(in_lobby()).map_values(|round: RocketJamRoundView| round.id)
            =~= rounds.take(i).filter(in_lobby()).map_values(
            |round: RocketJamRoundView| round.id,
        ).push(rounds[i].id));
    }
}

/// The identifiers of the rounds that are still in the lobby, in the order of
/// their creation.
pub fn list_joinable_rounds(model: &Model) -> (round_ids: Vec<RoundId>)
    ensures
        round_ids.deep_view() == model@.joinable(),
{
    let mut round_ids: Vec<RoundId> = Vec::new();
    let mut i: usize = 0;
    proof {
        reveal(Seq::filter);
        assert(model@.rounds.take(0) =~= Seq::empty());
        assert(round_ids.deep_view() =~= model@.rounds.take(0).filter(in_lobby()).map_values(
            |round: RocketJamRoundView| round.id,
        ));
    }
    while i < model.games_by_id.len()
        invariant
            i <= model.games_by_id.len(),
            round_ids.deep_view() == model@.rounds.take(i as int).filter(in_lobby()).map_values(
                |round: RocketJamRoundView| round.id,
            ),
        decreases model.games_by_id.len() - i,
    {
        proof {
            lemma_joinable_step(model@.rounds, i as int);
        }
        let round = &model.games_by_id[i];
        match &round.game {
            RocketJam::InLobby { .. } => {
                let ghost before = round_ids;
                let id = round.id.clone();
                round_ids.push(id);
                proof {
                    lemma_deep_view_push(before, round_ids, id);
                }
            },
            RocketJam::InLevel(_) => {},
        }
        i += 1;
    }
    assert(model@.rounds.take(model@.rounds.len() as int) =~= model@.rounds);
    round_ids
}

/// Tells `user_id` which rounds are still in the lobby.
pub fn get_available_rounds(user_id: UserId, model: &Model) -> (messages: Vec<ClientMessage>)
    ensures
        messages.deep_view() == seq![available_rounds_message(model@, user_id)],
{
    let round_ids = list_joinable_rounds(model);
    let mut messages: Vec<ClientMessage> = Vec::new();
    let message = (user_id, ToClient::AvailableRounds { round_ids });
    messages.push(message);
    assert(messages.deep_view() =~= seq![available_rounds_message(model@, user_id)]);
    messages
}

/// A round that `user` has just created under identifier `id`: in the
/// lobby, with its creator as the only player, and nobody ready.
pub open spec fn lobby_of(id: Seq<char>, user: UserId) -> RocketJamRoundView {
    RocketJamRoundView {
        id,
        players: seq![user],
        game: RocketJamView::InLobby { players_ready: Seq::empty() },
    }
}

/// A round for `user_id` under identifier `round_id`: in the lobby, with its
/// creator as the only player, and nobody ready.
pub fn init_rocket_jam_with_id(round_id: RoundId, user_id: UserId) -> (round: RocketJamRound)
    ensures
        round@ == lobby_of(round_id@, user_id),
        round@.wf(),
{
    let mut players: Vec<UserId> = Vec::new();
    players.push(user_id);
    let round = RocketJamRound {
        id: round_id,
        players,
        game: RocketJam::InLobby { players_ready: Vec::new() },
    };
    assert(round@.players =~= seq![user_id]);
    assert(round@.game == (RocketJamView::InLobby { players_ready: Seq::<UserId>::empty() })) by {
        assert(round@.game->InLobby_players_ready =~= Seq::<UserId>::empty());
    }
    round
}

/// A round for `user_id` under a random identifier: in the lobby, with its
/// creator as the only player, and nobody ready.
pub fn init_rocket_jam(user_id: UserId) -> (round: RocketJamRound)
    ensures
        round@ == lobby_of(round@.id, user_id),
        round@.wf(),
{
    init_rocket_jam_with_id(fresh_uuid(), user_id)
}

/// The round once `user` has joined it: the last of its players.
pub open spec fn joined_by(round: RocketJamRoundView, user: UserId) -> RocketJamRoundView {
    RocketJamRoundView { id: round.id, players: round.players.push(user), game: round.game }
}

/// The message that lets `user` into `round`.
pub open spec fn enter_message(user: UserId, round: RocketJamRoundView) -> ClientMessageView {
    (user, ToClientView::EnterRound { client_state: client_view_for(user, round) })
}

/// The messages that follow when the last player of `round` has just joined
/// it: an update for everybody who was there before, and the way in for the
/// newcomer.
pub open spec fn join_messages(round: RocketJamRoundView) -> Seq<ClientMessageView> {
    update_messages(round).drop_last().push(enter_message(round.players.last(), round))
}

impl ModelView {
    /// The registry after `user` has created a round under identifier `id`.
    pub open spec fn with_new_round(self, user: UserId, id: Seq<char>) -> ModelView {
        ModelView {
            rounds: self.rounds.push(lobby_of(id, user)),
            active: self.active.insert(user, id),
            tick: self.tick,
        }
    }

    /// The registry after `user` has joined the round at place `i`.
    pub open spec fn with_player(self, i: int, user: UserId) -> ModelView {
        ModelView {
            rounds: self.rounds.update(i, joined_by(self.rounds[i], user)),
            active: self.active.insert(user, self.rounds[i].id),
            tick: self.tick,
        }
    }

    /// `user` may create a round under identifier `id`: the player is in no
    /// round, and no round has that identifier.
    pub open spec fn can_start(self, user: UserId, id: Seq<char>) -> bool {
        self.active_round(user) is None && !self.has_round(id)
    }

    /// `user` may join the round with identifier `id`: the player is in no
    /// round, and there is such a round.
    pub open spec fn can_join(self, user: UserId, id: Seq<char>) -> bool {
        self.active_round(user) is None && self.has_round(id)
    }
}

/// What creating a round under identifier `id` for `user` makes of the
/// registry, and the messages that follow. A player who is in a round
/// already is let into that round again and no round is created; nothing
/// happens if the identifier is taken.
pub open spec fn started_under(
    before: ModelView,
    after: ModelView,
    user: UserId,
    id: Seq<char>,
    messages: Seq<ClientMessageView>,
) -> bool {
    match before.active_round(user) {
        Some(round) => after == before && messages == seq![enter_message(user, round)],
        None => if before.has_round(id) {
            after == before && messages == Seq::<ClientMessageView>::empty()
        } else {
            after == before.with_new_round(user, id) && messages == seq![
                enter_message(user, lobby_of(id, user)),
            ]
        },
    }
}

/// What creating a round for `user` makes of the registry, and the messages
/// that follow: the round gets an identifier that no round has. A player who
/// is in a round already is let into that round again and no round is
/// created.
pub open spec fn started(
    before: ModelView,
    after: ModelView,
    user: UserId,
    messages: Seq<ClientMessageView>,
) -> bool {
    exists|id: Seq<char>|
        !before.has_round(id) && #[trigger] started_under(before, after, user, id, messages)
}

/// The length of the longest identifier among the rounds.
pub open spec fn longest_id(rounds: Seq<RocketJamRoundView>) -> nat
    decreases rounds.len(),
{
    if rounds.len() == 0 {
        0
    } else {
        let before = longest_id(rounds.drop_last());
        if rounds.last().id.len() > before {
            rounds.last().id.len()
        } else {
            before
        }
    }
}

/// The text `id`, filled up with `'0'` at its end to `len` characters.
pub open spec fn padded(id: Seq<char>, len: nat) -> Seq<char> {
    if id.len() >= len {
        id
    } else {
        id + Seq::new((len - id.len()) as nat, |i: int| '0')
    }
}

/// The identifier that a new round gets when `drawn` was drawn for it:
/// `drawn` itself, unless a round has it already; then `drawn` filled up
/// until it is longer than the identifier of any round.
pub open spec fn free_form(drawn: Seq<char>, rounds: Seq<RocketJamRoundView>) -> Seq<char> {
    if exists|i: int| 0 <= i < rounds.len() && (#[trigger] rounds[i]).id == drawn {
        padded(drawn, longest_id(rounds) + 1)
    } else {
        drawn
    }
}

/// No identifier among the rounds is longer than the longest.
pub proof fn lemma_longest_id(rounds: Seq<RocketJamRoundView>, i: int)
    requires
        0 <= i < rounds.len(),
    ensures
        rounds[i].id.len() <= longest_id(rounds),
    decreases rounds.len(),
{
    if i < rounds.len() - 1 {
        lemma_longest_id(rounds.drop_last(), i);
    }
}

/// No round has the identifier that a new round gets.
pub proof fn lemma_free_form_is_free(drawn: Seq<char>, model: ModelView)
    ensures
        !model.has_round(free_form(drawn, model.rounds)),
{
    let id = free_form(drawn, model.rounds);
    if model.has_round(id) {
        let i = choose|i: int| 0 <= i < model.rounds.len() && (#[trigger] model.rounds[i]).id == id;
        lemma_longest_id(model.rounds, i);
    }
}

/// What a request of `user` to join the round with identifier `id` makes of
/// the registry, and the messages that follow. Nothing happens if there is no
/// such round, or if the player is in a round already.
pub open spec fn joined(
    before: ModelView,
    after: ModelView,
    user: UserId,
    id: Seq<char>,
    messages: Seq<ClientMessageView>,
) -> bool {
    if before.can_join(user, id) {
        let i = round_index(before.rounds, id)->Some_0;
        &&& after == before.with_player(i, user)
        &&& messages == join_messages(after.rounds[i])
    } else {
        &&& after == before
        &&& messages == Seq::<ClientMessageView>::empty()
    }
}

/// Rounds that keep their identifiers and players, and are well formed, keep
/// the registry well formed.
pub proof fn lemma_same_players_keep_wf(before: ModelView, after: ModelView)
    requires
        before.wf(),
        after.active == before.active,
        after.rounds.len() == before.rounds.len(),
        forall|i: int|
            0 <= i < before.rounds.len() ==> (#[trigger] after.rounds[i]).id == before.rounds[i].id
                && after.rounds[i].players == before.rounds[i].players && after.rounds[i].wf(),
    ensures
        after.wf(),
{
    assert forall|i: int, j: int| 0 <= i < j < after.rounds.len() implies (
    #[trigger] after.rounds[i]).id != (#[trigger] after.rounds[j]).id by {
        assert(before.rounds[i].id != before.rounds[j].id);
    }
    assert forall|user: UserId| #[trigger] after.active.contains_key(user) implies after.hosts(
        user,
        after.active[user],
    ) by {
        assert(before.hosts(user, before.active[user]));
        let i = choose|i: int|
            0 <= i < before.rounds.len() && (#[trigger] before.rounds[i]).id
                == before.active[user] && before.rounds[i].players.contains(user);
        assert(after.rounds[i].id == before.rounds[i].id);
    }
    assert forall|i: int, p: int|
        0 <= i < after.rounds.len() && 0 <= p < after.rounds[i].players.len() implies after.records(
        #[trigger] after.rounds[i].players[p],
        after.rounds[i].id,
    ) by {
        assert(after.rounds[i].players == before.rounds[i].players);
        assert(before.records(before.rounds[i].players[p], before.rounds[i].id));
    }
}

/// In a well-formed registry a player is recorded exactly if the player is in
/// a round, and then in no other.
pub proof fn lemma_single_active_round(model: ModelView, user: UserId, i: int, j: int)
    requires
        model.wf(),
        0 <= i < model.rounds.len(),
        0 <= j < model.rounds.len(),
        model.rounds[i].players.contains(user),
        model.rounds[j].players.contains(user),
    ensures
        i == j,
        model.active_round(user) == Some(model.rounds[i]),
{
    let p = choose|p: int|
        0 <= p < model.rounds[i].players.len() && model.rounds[i].players[p] == user;
    let q = choose|q: int|
        0 <= q < model.rounds[j].players.len() && model.rounds[j].players[q] == user;
    assert(model.records(model.rounds[i].players[p], model.rounds[i].id));
    assert(model.records(model.rounds[j].players[q], model.rounds[j].id));
    assert(first_round_at(model.rounds, model.rounds[i].id, i));
}

/// In a well-formed registry a player without a round is recorded nowhere and
/// plays nowhere.
pub proof fn lemma_no_active_round(model: ModelView, user: UserId)
    requires
        model.wf(),
        model.active_round(user) is None,
    ensures
        !model.active.contains_key(user),
        forall|i: int|
            0 <= i < model.rounds.len() ==> !(#[trigger] model.rounds[i]).players.contains(user),
{
    if model.active.contains_key(user) {
        assert(model.hosts(user, model.active[user]));
        let i = choose|i: int|
            0 <= i < model.rounds.len() && (#[trigger] model.rounds[i]).id == model.active[user]
                && model.rounds[i].players.contains(user);
        assert(first_round_at(model.rounds, model.active[user], i));
    }
    assert forall|i: int| 0 <= i < model.rounds.len() implies !(#[trigger] model.rounds[i]).players.contains(
    user) by {
        if model.rounds[i].players.contains(user) {
            let p = choose|p: int|
                0 <= p < model.rounds[i].players.len() && model.rounds[i].players[p] == user;
            assert(model.records(model.rounds[i].players[p], model.rounds[i].id));
        }
    }
}

/// Creating a round keeps the registry well formed.
pub proof fn lemma_new_round_keeps_wf(model: ModelView, user: UserId, id: Seq<char>)
    requires
        model.wf(),
        model.can_start(user, id),
    ensures
        model.with_new_round(user, id).wf(),
{
    let after = model.with_new_round(user, id);
    let n = model.rounds.len() as int;
    lemma_no_active_round(model, user);
    assert(lobby_of(id, user).players.no_duplicates());
    assert forall|i: int| 0 <= i < after.rounds.len() implies (#[trigger] after.rounds[i]).wf() by {
        if i < n {
            assert(after.rounds[i] == model.rounds[i]);
        }
    }
    assert forall|i: int, j: int| 0 <= i < j < after.rounds.len() implies (
    #[trigger] after.rounds[i]).id != (#[trigger] after.rounds[j]).id by {
        assert(after.rounds[i] == model.rounds[i]);
        if j < n {
            assert(after.rounds[j] == model.rounds[j]);
        }
    }
    assert forall|other: UserId| #[trigger] after.active.contains_key(other) implies after.hosts(
        other,
        after.active[other],
    ) by {
        if other == user {
            assert(after.rounds[n].id == id);
            assert(after.rounds[n].players[0] == user);
        } else {
            assert(model.hosts(other, model.active[other]));
            let i = choose|i: int|
                0 <= i < model.rounds.len() && (#[trigger] model.rounds[i]).id
                    == model.active[other] && model.rounds[i].players.contains(other);
            assert(after.rounds[i] == model.rounds[i]);
        }
    }
    assert forall|i: int, p: int|
        0 <= i < after.rounds.len() && 0 <= p < after.rounds[i].players.len() implies after.records(
        #[trigger] after.rounds[i].players[p],
        after.rounds[i].id,
    ) by {
        if i < n {
            assert(after.rounds[i] == model.rounds[i]);
            assert(model.records(model.rounds[i].players[p], model.rounds[i].id));
        }
    }
}

/// Joining a round keeps the registry well formed.
pub proof fn lemma_join_keeps_wf(model: ModelView, user: UserId, i: int)
    requires
        model.wf(),
        model.active_round(user) is None,
        0 <= i < model.rounds.len(),
    ensures
        model.with_player(i, user).wf(),
{
    let after = model.with_player(i, user);
    let before_round = model.rounds[i];
    let after_round = joined_by(before_round, user);
    lemma_no_active_round(model, user);
    assert(!before_round.players.contains(user));
    assert(after_round.wf()) by {
        assert(before_round.wf());
        assert forall|a: int, b: int|
            0 <= a < after_round.players.len() && 0 <= b < after_round.players.len() && a
                != b implies after_round.players[a] != after_round.players[b] by {
            if a < before_round.players.len() && b < before_round.players.len() {
                assert(before_round.players[a] != before_round.players[b]);
            } else if a < before_round.players.len() {
                assert(before_round.players.contains(before_round.players[a]));
            } else {
                assert(before_round.players.contains(before_round.players[b]));
            }
        }
        match before_round.game {
            RocketJamView::InLobby { players_ready } => {
                assert forall|r: int| 0 <= r < players_ready.len() implies after_round.players.contains(
                #[trigger] players_ready[r]) by {
                    assert(before_round.players.contains(players_ready[r]));
                    let p = choose|p: int|
                        0 <= p < before_round.players.len() && before_round.players[p]
                            == players_ready[r];
                    assert(after_round.players[p] == players_ready[r]);
                }
            },
            RocketJamView::InLevel(_) => {},
        }
    }
    assert forall|k: int| 0 <= k < after.rounds.len() implies (#[trigger] after.rounds[k]).wf() by {
        if k != i {
            assert(after.rounds[k] == model.rounds[k]);
        }
    }
    assert forall|a: int, b: int| 0 <= a < b < after.rounds.len() implies (
    #[trigger] after.rounds[a]).id != (#[trigger] after.rounds[b]).id by {
        assert(after.rounds[a].id == model.rounds[a].id);
        assert(after.rounds[b].id == model.rounds[b].id);
    }
    assert forall|other: UserId| #[trigger] after.active.contains_key(other) implies after.hosts(
        other,
        after.active[other],
    ) by {
        if other == user {
            assert(after.rounds[i].id == before_round.id);
            assert(after.rounds[i].players[before_round.players.len() as int] == user);
        } else {
            assert(model.hosts(other, model.active[other]));
            let k = choose|k: int|
                0 <= k < model.rounds.len() && (#[trigger] model.rounds[k]).id
                    == model.active[other] && model.rounds[k].players.contains(other);
            let p = choose|p: int|
                0 <= p < model.rounds[k].players.len() && model.rounds[k].players[p] == other;
            assert(after.rounds[k].id == model.rounds[k].id);
            assert(after.rounds[k].players[p] == other);
        }
    }
    assert forall|k: int, p: int|
        0 <= k < after.rounds.len() && 0 <= p < after.rounds[k].players.len() implies after.records(
        #[trigger] after.rounds[k].players[p],
        after.rounds[k].id,
    ) by {
        if k != i || p < before_round.players.len() {
            assert(after.rounds[k].players[p] == model.rounds[k].players[p]);
            assert(model.records(model.rounds[k].players[p], model.rounds[k].id));
            assert(model.rounds[k].players.contains(model.rounds[k].players[p]));
        }
    }
}

/// Creates a round under identifier `round_id` for `user_id` and lets the
/// player in. A player who is in a round already is let into that round
/// again and no round is created. Nothing happens if the identifier is
/// taken.
pub fn start_game_with_id(user_id: UserId, round_id: RoundId, model: &mut Model) -> (messages: Vec<
    ClientMessage,
>)
    ensures
        started_under(old(model)@, final(model)@, user_id, round_id@, messages.deep_view()),
        old(model)@.wf() ==> final(model)@.wf(),
{
    let mut messages: Vec<ClientMessage> = Vec::new();
    match find_active_index(user_id, model) {
        Some(i) => {
            match client_state_for_user(user_id, &model.games_by_id[i]) {
                Some(client_state) => {
                    let message = (user_id, ToClient::EnterRound { client_state });
                    messages.push(message);
                    assert(messages.deep_view() =~= seq![
                        enter_message(user_id, model@.rounds[i as int]),
                    ]);
                },
                None => {},
            }
            return messages;
        },
        None => {},
    }
    if find_round_index(&round_id, model).is_some() {
        assert(messages.deep_view() =~= Seq::<ClientMessageView>::empty());
        return messages;
    }
    let new_round = init_rocket_jam_with_id(round_id.clone(), user_id);
    match client_state_for_user(user_id, &new_round) {
        Some(client_state) => {
            let message = (user_id, ToClient::EnterRound { client_state });
            messages.push(message);
            assert(messages.deep_view() =~= seq![
                enter_message(user_id, lobby_of(round_id@, user_id)),
            ]);
        },
        None => {},
    }
    let ghost before_rounds = model.games_by_id;
    model.game_ids_by_user_id.insert(user_id, round_id);
    model.games_by_id.push(new_round);
    proof {
        lemma_deep_view_push(before_rounds, model.games_by_id, new_round);
        assert(model@.active =~= old(model)@.active.insert(user_id, round_id@));
        if old(model)@.wf() {
            lemma_new_round_keeps_wf(old(model)@, user_id, round_id@);
        }
    }
    messages
}

/// The length of the longest identifier among the rounds, in characters.
pub fn longest_identifier(model: &Model) -> (longest: usize)
    ensures
        longest == longest_id(model@.rounds),
{
    let mut longest: usize = 0;
    let mut i: usize = 0;
    assert(model@.rounds.take(0) =~= Seq::empty());
    while i < model.games_by_id.len()
        invariant
            i <= model.games_by_id.len(),
            longest == longest_id(model@.rounds.take(i as int)),
        decreases model.games_by_id.len() - i,
    {
        proof {
            let longer = model@.rounds.take(i + 1);
            assert(longer.drop_last() =~= model@.rounds.take(i as int));
            assert(longer.last() == model@.rounds[i as int]);
        }
        let len = model.games_by_id[i].id.as_str().unicode_len();
        if len > longest {
            longest = len;
        }
        i += 1;
    }
    assert(model@.rounds.take(model@.rounds.len() as int) =~= model@.rounds);
    longest
}

/// An identifier for a new round, made of the one that was drawn for it:
/// `drawn` itself, unless a round has it already; then `drawn` filled up with
/// `'0'` until it is longer than the identifier of any round.
pub fn free_identifier(drawn: RoundId, model: &Model) -> (round_id: RoundId)
    ensures
        round_id@ == free_form(drawn@, model@.rounds),
        !model@.has_round(round_id@),
{
    proof {
        lemma_free_form_is_free(drawn@, model@);
    }
    if find_round_index(&drawn, model).is_none() {
        return drawn;
    }
    let longest = longest_identifier(model);
    let ghost start = drawn@;
    let mut round_id = drawn;
    let mut len = round_id.as_str().unicode_len();
    proof {
        assert(round_id@ =~= start + Seq::new(0, |i: int| '0'));
        let i = choose|i: int|
            0 <= i < model@.rounds.len() && (#[trigger] model@.rounds[i]).id == start;
        lemma_longest_id(model@.rounds, i);
    }
    while len <= longest
        invariant
            len == round_id@.len(),
            start.len() <= len <= longest + 1,
            round_id@ == start + Seq::new((len - start.len()) as nat, |i: int| '0'),
        decreases longest + 1 - len,
    {
        proof {
            reveal_strlit("0");
        }
        round_id.append("0");
        len = round_id.as_str().unicode_len();
        assert(round_id@ =~= start + Seq::new((len - start.len()) as nat, |i: int| '0'));
    }
    round_id
}

/// Creates a round for `user_id` and lets the player in. The round's
/// identifier is drawn at random and, should a round have it already,
/// lengthened until none has it. A player who is in a round already is let
/// into that round again.
pub fn start_game(user_id: UserId, model: &mut Model) -> (messages: Vec<ClientMessage>)
    ensures
        started(old(model)@, final(model)@, user_id, messages.deep_view()),
        old(model)@.wf() ==> final(model)@.wf(),
{
    let round_id = free_identifier(fresh_uuid(), model);
    start_game_with_id(user_id, round_id, model)
}

impl Model {
    /// Whether the tick can advance and every level's counters can take one
    /// more count for every live instruction.
    pub fn check_limits(&self) -> (fits: bool)
        ensures
            fits == self@.within_limits(),
    {
        if self.tick > i32::MAX - INSTRUCTION_WINDOW - 1 {
            return false;
        }
        let mut i: usize = 0;
        while i < self.games_by_id.len()
            invariant
                i <= self.games_by_id.len(),
                forall|j: int| 0 <= j < i ==> (#[trigger] self@.rounds[j]).has_headroom(),
            decreases self.games_by_id.len() - i,
        {
            if !self.games_by_id[i].check_headroom() {
                assert(!self@.rounds[i as int].has_headroom());
                return false;
            }
            i += 1;
        }
        true
    }
}

/// Lets `user_id` join the round with identifier `round_id`: the player
/// becomes the last of its players, everybody who was there before is sent
/// an update, and the newcomer is let in. Nothing happens if there is no such
/// round, or if the player is in a round already.
pub fn join_game(user_id: UserId, round_id: &RoundId, model: &mut Model) -> (messages: Vec<
    ClientMessage,
>)
    ensures
        joined(old(model)@, final(model)@, user_id, round_id@, messages.deep_view()),
        old(model)@.wf() ==> final(model)@.wf(),
{
    let mut messages: Vec<ClientMessage> = Vec::new();
    assert(messages.deep_view() =~= Seq::<ClientMessageView>::empty());
    if find_active_index(user_id, model).is_some() {
        return messages;
    }
    match find_round_index(round_id, model) {
        Some(i) => {
            let round = &model.games_by_id[i];
            let mut players = copy_users(&round.players);
            players.push(user_id);
            let round_with_user = RocketJamRound {
                id: round.id.clone(),
                players,
                game: round.game.clone(),
            };
            assert(round_with_user@ == joined_by(old(model)@.rounds[i as int], user_id));
            let mut messages = updates_for_first(&round_with_user, round.players.len());
            match client_state_for_user(user_id, &round_with_user) {
                Some(client_state) => {
                    let ghost before = messages;
                    let message = (user_id, ToClient::EnterRound { client_state });
                    messages.push(message);
                    proof {
                        lemma_deep_view_push(before, messages, message);
                        assert(update_messages(round_with_user@).take(round@.players.len() as int)
                            =~= update_messages(round_with_user@).drop_last());
                        assert(round_with_user@.players.last() == user_id);
                    }
                },
                None => {},
            }
            let ghost before_rounds = model.games_by_id;
            model.game_ids_by_user_id.insert(user_id, round_with_user.id.clone());
            model.games_by_id.set(i, round_with_user);
            proof {
                assert(model@.rounds =~= old(model)@.rounds.update(
                    i as int,
                    joined_by(old(model)@.rounds[i as int], user_id),
                )) by {
                    assert forall|k: int| 0 <= k < model@.rounds.len() implies model@.rounds[k]
                        == old(model)@.rounds.update(
                        i as int,
                        joined_by(old(model)@.rounds[i as int], user_id),
                    )[k] by {
                        if k != i {
                            assert(model.games_by_id@[k] == before_rounds@[k]);
                        }
                    }
                }
                assert(model@.active =~= old(model)@.active.insert(
                    user_id,
                    old(model)@.rounds[i as int].id,
                ));
                if old(model)@.wf() {
                    lemma_join_keeps_wf(old(model)@, user_id, i as int);
                }
            }
            messages
        },
        None => messages,
    }
}

} // verus!
