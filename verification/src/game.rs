//! The game as a whole: the registry of rounds together with its random
//! source, driven by ticks and by the commands of the players.

use crate::chance::entropy_rng;
use crate::commands::{command_messages, update_round, updated};
use crate::messages::{ClientMessage, ClientMessageView, ToBackend, ToBackendView};
use crate::registry::{
    available_rounds_message, find_active_index, get_available_rounds, init_model, join_game,
    joined, lemma_same_players_keep_wf, round_index, start_game, started, started_under, Model,
    ModelView,
};
use crate::round::{RocketJamRound, UserId};
use crate::seqs::{lemma_deep_view_add, lemma_deep_view_push};
use crate::ticking::{tick_messages, tick_round, ticked};
use crate::user::User;
use rand::rngs::StdRng;
use vstd::prelude::*;

verus! {

/// The registry of rounds and the random source its levels draw from.
pub struct RocketJamApp {
    model: Model,
    rng: StdRng,
}

impl View for RocketJamApp {
    type V = ModelView;

    closed spec fn view(&self) -> ModelView {
        self.model@
    }
}

/// What a tick makes of the registry: the count of ticks goes up by one, and
/// the tick of that number passes over every round.
pub open spec fn swept(before: ModelView, after: ModelView) -> bool {
    &&& after.tick == before.tick + 1
    &&& after.active == before.active
    &&& after.rounds.len() == before.rounds.len()
    &&& forall|i: int|
        0 <= i < before.rounds.len() ==> ticked(
            before.rounds[i],
            #[trigger] after.rounds[i],
            after.tick,
        )
}

/// The messages a tick of the registry gives rise to: those of every round,
/// in the order of the rounds.
pub open spec fn sweep_messages(before: ModelView, after: ModelView) -> Seq<ClientMessageView> {
    Seq::new(
        before.rounds.len(),
        |i: int| tick_messages(before.rounds[i], after.rounds[i], after.tick),
    ).flatten()
}

/// What a command of `user` makes of the registry, and the messages that
/// follow. A player who is in a round has the command applied to that round.
/// Anybody else can ask for the rounds that are open, create a round, or
/// join one; any other command is ignored.
pub open spec fn commanded(
    before: ModelView,
    after: ModelView,
    user: UserId,
    msg: ToBackendView,
    messages: Seq<ClientMessageView>,
) -> bool {
    match before.active_round(user) {
        Some(round) => {
            let i = round_index(before.rounds, before.active[user])->Some_0;
            &&& after.tick == before.tick
            &&& after.active == before.active
            &&& after.rounds == before.rounds.update(i, after.rounds[i])
            &&& updated(round, after.rounds[i], user, msg, before.tick)
            &&& messages == command_messages(round, after.rounds[i], user, msg)
        },
        None => match msg {
            ToBackendView::Init | ToBackendView::GetAvailableRounds => after == before && messages
                == seq![available_rounds_message(before, user)],
            ToBackendView::StartGame => started(before, after, user, messages),
            ToBackendView::JoinGame { round_id } => joined(
                before,
                after,
                user,
                round_id,
                messages,
            ),
            _ => after == before && messages == Seq::<ClientMessageView>::empty(),
        },
    }
}

impl RocketJamApp {
    /// A game without rounds, at tick zero, with a random source seeded by
    /// the operating system.
    pub fn new() -> (app: Self)
        ensures
            app@.rounds.len() == 0,
            app@.active == Map::<UserId, Seq<char>>::empty(),
            app@.tick == 0,
            app@.wf(),
            app@.within_limits(),
    {
        RocketJamApp { model: init_model(), rng: entropy_rng() }
    }

    /// A game without rounds, at tick zero, that draws from `rng`.
    pub fn with_rng(rng: StdRng) -> (app: Self)
        ensures
            app@.rounds.len() == 0,
            app@.active == Map::<UserId, Seq<char>>::empty(),
            app@.tick == 0,
            app@.wf(),
            app@.within_limits(),
            app.source() == rng,
    {
        RocketJamApp { model: init_model(), rng }
    }

    /// The random source that the game's levels draw from.
    pub closed spec fn source(&self) -> StdRng {
        self.rng
    }

    /// The registry.
    pub fn model(&self) -> (model: &Model)
        ensures
            model@ == self@,
    {
        &self.model
    }

    /// Whether the tick can advance and every level's counters can take one
    /// more count for every live instruction.
    pub fn check_limits(&self) -> (fits: bool)
        ensures
            fits == self@.within_limits(),
    {
        self.model.check_limits()
    }

    /// Counts one tick and lets it pass over every round: a level that
    /// started when the count stood at `t` has its first instructions expire
    /// in the fifth call after that. Returns the messages of all rounds, in
    /// the order of the rounds.
    pub fn tick(&mut self) -> (messages: Vec<ClientMessage>)
        requires
            old(self)@.within_limits(),
        ensures
            swept(old(self)@, final(self)@),
            messages.deep_view() == sweep_messages(old(self)@, final(self)@),
            old(self)@.wf() ==> final(self)@.wf(),
    {
        let mut updated_rounds: Vec<RocketJamRound> = Vec::new();
        let mut msgs: Vec<ClientMessage> = Vec::new();
        let ghost mut parts: Seq<Seq<ClientMessageView>> = Seq::empty();
        let ghost before = self.model@;
        self.model.tick += 1;
        let current_tick = self.model.tick;
        let mut i: usize = 0;
        assert(msgs.deep_view() =~= parts.flatten());
        while i < self.model.games_by_id.len()
            invariant
                i <= self.model.games_by_id.len(),
                self.model.games_by_id == old(self).model.games_by_id,
                self.model.game_ids_by_user_id == old(self).model.game_ids_by_user_id,
                self.model.tick == current_tick,
                before == old(self).model@,
                current_tick == before.tick + 1,
                before.within_limits(),
                updated_rounds@.len() == i,
                parts.len() == i,
                forall|k: int|
                    0 <= k < i ==> ticked(
                        before.rounds[k],
                        #[trigger] updated_rounds.deep_view()[k],
                        current_tick,
                    ),
                forall|k: int|
                    0 <= k < i ==> (before.rounds[k].wf() ==> (
                    #[trigger] updated_rounds.deep_view()[k]).wf()),
                forall|k: int|
                    0 <= k < i ==> #[trigger] parts[k] == tick_messages(
                        before.rounds[k],
                        updated_rounds.deep_view()[k],
                        current_tick,
                    ),
                msgs.deep_view() == parts.flatten(),
            decreases self.model.games_by_id.len() - i,
        {
            assert(before.rounds[i as int].has_headroom());
            let (updated_round, mut client_messages) = tick_round(
                &self.model.games_by_id[i],
                current_tick,
                &mut self.rng,
            );
            let ghost rounds_before = updated_rounds;
            let ghost msgs_before = msgs;
            let ghost part = client_messages;
            updated_rounds.push(updated_round);
            msgs.append(&mut client_messages);
            proof {
                lemma_deep_view_push(rounds_before, updated_rounds, updated_round);
                lemma_deep_view_add(msgs_before, part, msgs);
                parts.lemma_flatten_push(part.deep_view());
                parts = parts.push(part.deep_view());
            }
            i += 1;
        }
        self.model.games_by_id = updated_rounds;
        proof {
            let after = self.model@;
            assert(parts =~= Seq::new(
                before.rounds.len(),
                |k: int| tick_messages(before.rounds[k], after.rounds[k], after.tick),
            ));
            if before.wf() {
                lemma_same_players_keep_wf(before, after);
            }
        }
        msgs
    }

    /// Applies a command of `user`. A player who is in a round has the
    /// command applied to that round. Anybody else can ask for the rounds
    /// that are open, create a round, or join one.
    pub fn update(&mut self, user: &User, msg: ToBackend) -> (messages: Vec<ClientMessage>)
        requires
            old(self)@.within_limits(),
        ensures
            commanded(
                old(self)@,
                final(self)@,
                user.id,
                msg@,
                messages.deep_view(),
            ),
            old(self)@.wf() ==> final(self)@.wf(),
    {
        let ghost before = self.model@;
        match find_active_index(user.id, &self.model) {
            Some(i) => {
                assert(before.rounds[i as int].has_headroom());
                let (updated_round, messages) = update_round(
                    user.id,
                    &self.model.games_by_id[i],
                    &msg,
                    self.model.tick,
                    &mut self.rng,
                );
                let ghost rounds_before = self.model.games_by_id;
                self.model.games_by_id.set(i, updated_round);
                proof {
                    let after = self.model@;
                    assert(after.rounds =~= before.rounds.update(i as int, updated_round@)) by {
                        assert forall|k: int| 0 <= k < after.rounds.len() implies after.rounds[k]
                            == before.rounds.update(i as int, updated_round@)[k] by {
                            if k != i {
                                assert(self.model.games_by_id@[k] == rounds_before@[k]);
                            }
                        }
                    }
                    if before.wf() {
                        lemma_same_players_keep_wf(before, after);
                    }
                }
                messages
            },
            None => match msg {
                ToBackend::Init => get_available_rounds(user.id, &self.model),
                ToBackend::StartGame => start_game(user.id, &mut self.model),
                ToBackend::GetAvailableRounds => get_available_rounds(user.id, &self.model),
                ToBackend::JoinGame { round_id } => join_game(user.id, &round_id, &mut self.model),
                _ => {
                    let none: Vec<ClientMessage> = Vec::new();
                    assert(none.deep_view() =~= Seq::<ClientMessageView>::empty());
                    none
                },
            },
        }
    }
}

/// The count of ticks never falls: a tick raises it by one, and a command
/// leaves it as it is.
pub proof fn lemma_tick_never_falls(
    before: ModelView,
    after: ModelView,
    user: UserId,
    msg: ToBackendView,
    messages: Seq<ClientMessageView>,
)
    requires
        swept(before, after) || commanded(before, after, user, msg, messages),
    ensures
        swept(before, after) ==> after.tick == before.tick + 1,
        commanded(before, after, user, msg, messages) ==> after.tick == before.tick,
{
    if commanded(before, after, user, msg, messages) {
        if before.active_round(user) is None {
            match msg {
                ToBackendView::StartGame => {
                    let id = choose|id: Seq<char>|
                        !before.has_round(id) && #[trigger] started_under(
                            before,
                            after,
                            user,
                            id,
                            messages,
                        );
                },
                _ => {},
            }
        }
    }
}

} // verus!
