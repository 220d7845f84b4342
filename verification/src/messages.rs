//! What clients send and what they are sent.

use crate::round::{ItemId, RoundId, UserId};
use crate::seqs::lemma_deep_view_push;
use vstd::prelude::*;

verus! {

/// An item as its owner sees it.
#[derive(Debug, PartialEq)]
pub struct ClientUiItem {
    pub id: ItemId,
    pub label: String,
    pub state: u8,
    pub max_value: u8,
}

/// Model of a [`ClientUiItem`].
pub struct ClientUiItemView {
    pub id: ItemId,
    pub label: Seq<char>,
    pub state: u8,
    pub max_value: u8,
}

impl View for ClientUiItem {
    type V = ClientUiItemView;

    open spec fn view(&self) -> ClientUiItemView {
        ClientUiItemView {
            id: self.id,
            label: self.label@,
            state: self.state,
            max_value: self.max_value,
        }
    }
}

impl DeepView for ClientUiItem {
    type V = ClientUiItemView;

    open spec fn deep_view(&self) -> ClientUiItemView {
        self@
    }
}

impl Clone for ClientUiItem {
    fn clone(&self) -> (copy: Self)
        ensures
            copy@ == self@,
    {
        ClientUiItem {
            id: self.id,
            label: self.label.clone(),
            state: self.state,
            max_value: self.max_value,
        }
    }
}

/// Copies a list of items as their owner sees them.
pub(crate) fn copy_ui_items(items: &Vec<ClientUiItem>) -> (copy: Vec<ClientUiItem>)
    ensures
        copy.deep_view() == items.deep_view(),
{
    let mut copy: Vec<ClientUiItem> = Vec::new();
    let mut i: usize = 0;
    while i < items.len()
        invariant
            i <= items.len(),
            copy.deep_view() == items.deep_view().take(i as int),
        decreases items.len() - i,
    {
        let ghost before = copy;
        let item = items[i].clone();
        copy.push(item);
        i += 1;
        proof {
            lemma_deep_view_push(before, copy, item);
            assert(copy.deep_view() =~= items.deep_view().take(i as int));
        }
    }
    copy
}

/// Copies a list of round identifiers.
pub(crate) fn copy_round_ids(ids: &Vec<RoundId>) -> (copy: Vec<RoundId>)
    ensures
        copy.deep_view() == ids.deep_view(),
{
    let mut copy: Vec<RoundId> = Vec::new();
    let mut i: usize = 0;
    while i < ids.len()
        invariant
            i <= ids.len(),
            copy.deep_view() == ids.deep_view().take(i as int),
        decreases ids.len() - i,
    {
        let ghost before = copy;
        let id = ids[i].clone();
        copy.push(id);
        i += 1;
        proof {
            lemma_deep_view_push(before, copy, id);
            assert(copy.deep_view() =~= ids.deep_view().take(i as int));
        }
    }
    copy
}

/// What one player is shown of a round.
#[derive(Debug, PartialEq)]
pub enum ClientState {
    Lobby { player_count: usize, player_ready_count: usize },
    InGame {
        current_instruction: String,
        ui_items: Vec<ClientUiItem>,
        instructions_executed: usize,
        instructions_missed: usize,
    },
}

/// Model of a [`ClientState`].
pub enum ClientStateView {
    Lobby { player_count: usize, player_ready_count: usize },
    InGame {
        current_instruction: Seq<char>,
        ui_items: Seq<ClientUiItemView>,
        instructions_executed: usize,
        instructions_missed: usize,
    },
}

impl View for ClientState {
    type V = ClientStateView;

    open spec fn view(&self) -> ClientStateView {
        match self {
            ClientState::Lobby { player_count, player_ready_count } => ClientStateView::Lobby {
                player_count: *player_count,
                player_ready_count: *player_ready_count,
            },
            ClientState::InGame {
                current_instruction,
                ui_items,
                instructions_executed,
                instructions_missed,
            } => ClientStateView::InGame {
                current_instruction: current_instruction@,
                ui_items: ui_items.deep_view(),
                instructions_executed: *instructions_executed,
                instructions_missed: *instructions_missed,
            },
        }
    }
}

impl DeepView for ClientState {
    type V = ClientStateView;

    open spec fn deep_view(&self) -> ClientStateView {
        self@
    }
}

impl Clone for ClientState {
    fn clone(&self) -> (copy: Self)
        ensures
            copy@ == self@,
    {
        match self {
            ClientState::Lobby { player_count, player_ready_count } => ClientState::Lobby {
                player_count: *player_count,
                player_ready_count: *player_ready_count,
            },
            ClientState::InGame {
                current_instruction,
                ui_items,
                instructions_executed,
                instructions_missed,
            } => ClientState::InGame {
                current_instruction: current_instruction.clone(),
                ui_items: copy_ui_items(ui_items),
                instructions_executed: *instructions_executed,
                instructions_missed: *instructions_missed,
            },
        }
    }
}

/// A message for a client.
#[derive(Debug, PartialEq)]
pub enum ToClient {
    HelloClient,
    UpdateGameState { client_state: ClientState },
    AvailableRounds { round_ids: Vec<RoundId> },
    EnterRound { client_state: ClientState },
}

/// Model of a [`ToClient`].
pub enum ToClientView {
    HelloClient,
    UpdateGameState { client_state: ClientStateView },
    AvailableRounds { round_ids: Seq<Seq<char>> },
    EnterRound { client_state: ClientStateView },
}

impl View for ToClient {
    type V = ToClientView;

    open spec fn view(&self) -> ToClientView {
        match self {
            ToClient::HelloClient => ToClientView::HelloClient,
            ToClient::UpdateGameState { client_state } => ToClientView::UpdateGameState {
                client_state: client_state@,
            },
            ToClient::AvailableRounds { round_ids } => ToClientView::AvailableRounds {
                round_ids: round_ids.deep_view(),
            },
            ToClient::EnterRound { client_state } => ToClientView::EnterRound {
                client_state: client_state@,
            },
        }
    }
}

impl DeepView for ToClient {
    type V = ToClientView;

    open spec fn deep_view(&self) -> ToClientView {
        self@
    }
}

impl Clone for ToClient {
    fn clone(&self) -> (copy: Self)
        ensures
            copy@ == self@,
    {
        match self {
            ToClient::HelloClient => ToClient::HelloClient,
            ToClient::UpdateGameState { client_state } => ToClient::UpdateGameState {
                client_state: client_state.clone(),
            },
            ToClient::AvailableRounds { round_ids } => ToClient::AvailableRounds {
                round_ids: copy_round_ids(round_ids),
            },
            ToClient::EnterRound { client_state } => ToClient::EnterRound {
                client_state: client_state.clone(),
            },
        }
    }
}

/// A message together with the player it is meant for.
pub type ClientMessage = (UserId, ToClient);

/// Model of a [`ClientMessage`].
pub type ClientMessageView = (UserId, ToClientView);

/// A command from a client.
#[derive(Debug, PartialEq)]
pub enum ToBackend {
    Init,
    StartGame,
    ToggleReady,
    ChangeSetting { item_id: ItemId, value: u8 },
    GetAvailableRounds,
    JoinGame { round_id: RoundId },
}

/// Model of a [`ToBackend`].
pub enum ToBackendView {
    Init,
    StartGame,
    ToggleReady,
    ChangeSetting { item_id: ItemId, value: u8 },
    GetAvailableRounds,
    JoinGame { round_id: Seq<char> },
}

impl View for ToBackend {
    type V = ToBackendView;

    open spec fn view(&self) -> ToBackendView {
        match self {
            ToBackend::Init => ToBackendView::Init,
            ToBackend::StartGame => ToBackendView::StartGame,
            ToBackend::ToggleReady => ToBackendView::ToggleReady,
            ToBackend::ChangeSetting { item_id, value } => ToBackendView::ChangeSetting {
                item_id: *item_id,
                value: *value,
            },
            ToBackend::GetAvailableRounds => ToBackendView::GetAvailableRounds,
            ToBackend::JoinGame { round_id } => ToBackendView::JoinGame { round_id: round_id@ },
        }
    }
}

impl Clone for ToBackend {
    fn clone(&self) -> (copy: Self)
        ensures
            copy@ == self@,
    {
        match self {
            ToBackend::Init => ToBackend::Init,
            ToBackend::StartGame => ToBackend::StartGame,
            ToBackend::ToggleReady => ToBackend::ToggleReady,
            ToBackend::ChangeSetting { item_id, value } => ToBackend::ChangeSetting {
                item_id: *item_id,
                value: *value,
            },
            ToBackend::GetAvailableRounds => ToBackend::GetAvailableRounds,
            ToBackend::JoinGame { round_id } => ToBackend::JoinGame { round_id: round_id.clone() },
        }
    }
}

/// A command together with the session token of the client that sent it.
#[derive(Debug, PartialEq)]
pub struct ToBackendEnvelope {
    pub token: String,
    pub to_backend: ToBackend,
}

impl Clone for ToBackendEnvelope {
    fn clone(&self) -> (copy: Self)
        ensures
            copy.token@ == self.token@,
            copy.to_backend@ == self.to_backend@,
    {
        ToBackendEnvelope { token: self.token.clone(), to_backend: self.to_backend.clone() }
    }
}

/// What travels down a client's push channel: a message of the game, or the
/// notice that a newer channel has taken this one's place.
#[derive(Debug, PartialEq)]
pub enum ToClientEnvelope {
    SuperSeeded(),
    AppMsg(ToClient),
}

/// Model of a [`ToClientEnvelope`].
pub enum ToClientEnvelopeView {
    SuperSeeded,
    AppMsg(ToClientView),
}

impl View for ToClientEnvelope {
    type V = ToClientEnvelopeView;

    open spec fn view(&self) -> ToClientEnvelopeView {
        match self {
            ToClientEnvelope::SuperSeeded() => ToClientEnvelopeView::SuperSeeded,
            ToClientEnvelope::AppMsg(to_client) => ToClientEnvelopeView::AppMsg(to_client@),
        }
    }
}

impl DeepView for ToClientEnvelope {
    type V = ToClientEnvelopeView;

    open spec fn deep_view(&self) -> ToClientEnvelopeView {
        self@
    }
}

impl Clone for ToClientEnvelope {
    fn clone(&self) -> (copy: Self)
        ensures
            copy@ == self@,
    {
        match self {
            ToClientEnvelope::SuperSeeded() => ToClientEnvelope::SuperSeeded(),
            ToClientEnvelope::AppMsg(to_client) => ToClientEnvelope::AppMsg(to_client.clone()),
        }
    }
}

} // verus!
