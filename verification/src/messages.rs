//! The typed request and response payloads carried by frames, the
//! broadcast envelopes, and the domain error type.
//!
//! The wire encoding of these payloads belongs to the serialization
//! collaborator; the library only defines the values.

use vstd::prelude::*;

use crate::board::Board;
use crate::cards::Card;

verus! {

// ------------------------------- requests ------------------------------

#[derive(Debug)]
pub struct ConnectRequest {
    pub name: String,
}

#[derive(Debug, Clone, Copy, PartialEq, Eq, Structural)]
pub struct CreateRequest {
    pub max_players: u32,
}

#[derive(Debug, Clone, Copy, PartialEq, Eq, Structural)]
pub struct JoinRequest {
    pub lobby_id: u32,
}

#[derive(Debug, Clone, Copy, PartialEq, Eq, Structural)]
pub struct SetTileRequest {
    pub x: u32,
    pub y: u32,
    pub card_index: u32,
}

#[derive(Debug, Clone, Copy, PartialEq, Eq, Structural)]
pub struct CancelRequest {
    pub x: u32,
    pub y: u32,
}

/// One decoded request body, tagged by operation.
#[derive(Debug)]
pub enum RequestData {
    Connect(ConnectRequest),
    Disconnect,
    Heartbeat,
    CreateLobby(CreateRequest),
    JoinLobby(JoinRequest),
    QuitLobby,
    ListLobby,
    Ready,
    StartGame,
    SetTile(SetTileRequest),
    FinishTurn,
    GetNewCard,
    Cancel(CancelRequest),
    Exit,
}

// ------------------------------ responses ------------------------------

/// A player as responses describe one.
#[derive(Debug)]
pub struct PlayerInfo {
    pub id: u32,
    pub name: String,
}

/// A lobby's roster as responses carry it.
#[derive(Debug)]
pub struct LobbyData {
    pub id: u32,
    pub players: Vec<PlayerInfo>,
}

/// One line of the lobby listing.
#[derive(Debug, Clone, Copy, PartialEq, Eq, Structural)]
pub struct LobbyInfo {
    pub id: u32,
    pub max_players: u32,
    pub cur_players: u32,
}

#[derive(Debug)]
pub struct ErrorResponse {
    pub message: String,
}

#[derive(Debug)]
pub struct ConnectResponse {
    pub success: bool,
    pub player: Option<PlayerInfo>,
}

#[derive(Debug)]
pub struct DisconnectResponse {
    pub success: bool,
}

#[derive(Debug)]
pub struct HeartbeatResponse {
    pub success: bool,
}

#[derive(Debug)]
pub struct CreateResponse {
    pub success: bool,
    pub lobby: Option<LobbyData>,
}

#[derive(Debug)]
pub struct JoinResponse {
    pub success: bool,
    pub lobby: Option<LobbyData>,
}

#[derive(Debug)]
pub struct QuitResponse {
    pub success: bool,
}

#[derive(Debug)]
pub struct ListResponse {
    pub success: bool,
    pub lobby_infos: Vec<LobbyInfo>,
}

#[derive(Debug)]
pub struct ReadyResponse {
    pub success: bool,
}

#[derive(Debug)]
pub struct StartResponse {
    pub success: bool,
    pub board: Option<Board>,
    pub cards: Vec<Card>,
    pub current_player: Option<PlayerInfo>,
    pub next_player: Option<PlayerInfo>,
}

#[derive(Debug)]
pub struct SetTileResponse {
    pub success: bool,
}

#[derive(Debug)]
pub struct FinishTurnResponse {
    pub success: bool,
    pub current_player: Option<PlayerInfo>,
    pub next_player: Option<PlayerInfo>,
    pub cards: Option<Vec<Card>>,
    pub words: Option<Vec<String>>,
}

#[derive(Debug)]
pub struct GetNewCardResponse {
    pub success: bool,
    pub cards: Option<Vec<Card>>,
}

#[derive(Debug)]
pub struct ExitResponse {
    pub success: bool,
}

#[derive(Debug)]
pub struct CancelResponse {
    pub success: bool,
    pub cards: Option<Vec<Card>>,
}

#[derive(Debug, Clone, Copy, PartialEq, Eq, Structural)]
pub enum LobbyEvent {
    Join,
    Leave,
    Destroy,
    Start,
}

#[derive(Debug, Clone, Copy, PartialEq, Eq, Structural)]
pub enum GameEvent {
    PlaceTile,
    FinishTurn,
    Shuffle,
    Leave,
    Destroy,
}

/// A server-initiated lobby notification.
#[derive(Debug)]
pub struct LobbyBroadcast {
    pub event: LobbyEvent,
    pub lobby: Option<LobbyData>,
    pub cards: Option<Vec<Card>>,
    pub current_player: Option<PlayerInfo>,
    pub next_player: Option<PlayerInfo>,
}

/// A server-initiated game notification.
#[derive(Debug)]
pub struct GameBroadcast {
    pub event: GameEvent,
    pub board: Option<Board>,
    pub players: Option<Vec<PlayerInfo>>,
    pub current_player: Option<PlayerInfo>,
    pub next_player: Option<PlayerInfo>,
    pub words: Option<Vec<String>>,
    pub cards: Option<Vec<Card>>,
}

/// One response body, tagged like the request that drew it (or as a
/// broadcast).
#[derive(Debug)]
pub enum ResponseData {
    Error(ErrorResponse),
    Connect(ConnectResponse),
    Disconnect(DisconnectResponse),
    Cancel(CancelResponse),
    Heartbeat(HeartbeatResponse),
    CreateLobby(CreateResponse),
    JoinLobby(JoinResponse),
    QuitLobby(QuitResponse),
    ListLobby(ListResponse),
    Ready(ReadyResponse),
    StartGame(StartResponse),
    LobbyBroadcast(LobbyBroadcast),
    SetTile(SetTileResponse),
    FinishTurn(FinishTurnResponse),
    GetNewCard(GetNewCardResponse),
    GameBroadcast(GameBroadcast),
    Exit(ExitResponse),
}

/// One notification and the players it goes to. The write loops of the
/// listed players serialize and deliver it outside the library.
#[derive(Debug)]
pub struct Broadcast {
    pub targets: Vec<u32>,
    pub data: ResponseData,
}

// ------------------------------- errors --------------------------------

/// Every recoverable failure a handler can report. The router turns one
/// into an `Error` response; it never ends the connection.
#[derive(Debug, Clone, Copy, PartialEq, Eq, Structural)]
pub enum GameError {
    PlayerNotFound,
    ClientAlreadyConnected,
    PlayerNotInLobby,
    PlayerAlreadyInLobby,
    PlayerAlreadyInThisLobby,
    LobbyNotFound,
    LobbyFull,
    InvalidMaxPlayers,
    OnlyLeaderCanStart,
    NotAllPlayersReady,
    PlayerNotInGame,
    GameNotFound,
    NotYourTurn,
    CardAlreadyUsed,
    CardNotFound,
    TileOutOfBoard,
    CardNotOnBoard,
    WrongTurnCancel,
    HasShuffled,
    InvalidWord,
}

impl GameError {
    /// The message the error response carries.
    pub fn message(&self) -> (m: String)
        ensures
            m@ == self.spec_message(),
    {
        match *self {
            GameError::PlayerNotFound => String::from_str("Player not found"),
            GameError::ClientAlreadyConnected => String::from_str("client already connected"),
            GameError::PlayerNotInLobby => String::from_str("Player not in lobby"),
            GameError::PlayerAlreadyInLobby => String::from_str("player already in a lobby"),
            GameError::PlayerAlreadyInThisLobby => String::from_str("Player already in lobby"),
            GameError::LobbyNotFound => String::from_str("Lobby not found"),
            GameError::LobbyFull => String::from_str("Lobby is full"),
            GameError::InvalidMaxPlayers => String::from_str("Invalid max players"),
            GameError::OnlyLeaderCanStart => String::from_str("Only leader can start game"),
            GameError::NotAllPlayersReady => String::from_str("Not all players are ready"),
            GameError::PlayerNotInGame => String::from_str("Player not in a game"),
            GameError::GameNotFound => String::from_str("Game not found"),
            GameError::NotYourTurn => String::from_str("Player not in his turn"),
            GameError::CardAlreadyUsed => String::from_str("Card has used"),
            GameError::CardNotFound => String::from_str("Card not found"),
            GameError::TileOutOfBoard => String::from_str("Tile out of board"),
            GameError::CardNotOnBoard => String::from_str("Card not in the hand"),
            GameError::WrongTurnCancel => String::from_str("card not place in this turn"),
            GameError::HasShuffled => String::from_str("Player has shuffled in this turn"),
            GameError::InvalidWord => String::from_str("invalid word"),
        }
    }

    /// The message, as specification text.
    pub open spec fn spec_message(&self) -> Seq<char> {
        match *self {
            GameError::PlayerNotFound => "Player not found"@,
            GameError::ClientAlreadyConnected => "client already connected"@,
            GameError::PlayerNotInLobby => "Player not in lobby"@,
            GameError::PlayerAlreadyInLobby => "player already in a lobby"@,
            GameError::PlayerAlreadyInThisLobby => "Player already in lobby"@,
            GameError::LobbyNotFound => "Lobby not found"@,
            GameError::LobbyFull => "Lobby is full"@,
            GameError::InvalidMaxPlayers => "Invalid max players"@,
            GameError::OnlyLeaderCanStart => "Only leader can start game"@,
            GameError::NotAllPlayersReady => "Not all players are ready"@,
            GameError::PlayerNotInGame => "Player not in a game"@,
            GameError::GameNotFound => "Game not found"@,
            GameError::NotYourTurn => "Player not in his turn"@,
            GameError::CardAlreadyUsed => "Card has used"@,
            GameError::CardNotFound => "Card not found"@,
            GameError::TileOutOfBoard => "Tile out of board"@,
            GameError::CardNotOnBoard => "Card not in the hand"@,
            GameError::WrongTurnCancel => "card not place in this turn"@,
            GameError::HasShuffled => "Player has shuffled in this turn"@,
            GameError::InvalidWord => "invalid word"@,
        }
    }
}

} // verus!
