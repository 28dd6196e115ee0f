//! Operation dispatch: a registration table from operation tag to
//! handler, and the handlers themselves.
//!
//! A handler's domain error never ends the connection: the router wraps
//! it as an `Error` response carrying the error's message. Only a
//! missing registration — a configuration mistake, not a client
//! mistake — is a fatal routing error.

use vstd::prelude::*;

use crate::frame::{spec_op_of_request, Operation, Request};
use crate::game::queue_ids;
use crate::game_service::GameService;
use crate::lobby::LobbyService;
use crate::messages::{
    Broadcast, CancelResponse, ConnectResponse, CreateResponse, DisconnectResponse, ErrorResponse,
    ExitResponse, FinishTurnResponse, GameError, GetNewCardResponse, HeartbeatResponse,
    JoinResponse, ListResponse, PlayerInfo, QuitResponse, ReadyResponse, RequestData, ResponseData,
    SetTileResponse, StartResponse,
};
use crate::player::PlayerService;

verus! {

/// What a handler needs to know about the connection it serves.
#[derive(Debug, Clone, Copy, PartialEq, Eq, Structural)]
pub struct RequestContext {
    pub client_id: u32,
}

/// The one fatal routing failure: no handler was registered for the
/// operation.
#[derive(Debug, Clone, Copy, PartialEq, Eq, Structural)]
pub enum RouterError {
    NoController,
}

/// The caller sits in a registered lobby whose roster carries them.
pub open spec fn in_lobby(players: PlayerService, lobbies: LobbyService, cid: u32) -> bool {
    let lid = players.player_of(cid).lobby->Some_0;
    &&& players.has(cid)
    &&& players.player_of(cid).lobby is Some
    &&& crate::lobby::lobbies_has(lobbies.spec_lobbies(), lid)
    &&& crate::lobby::roster_has(
        crate::lobby::lobby_of(lobbies.spec_lobbies(), lid).roster(),
        cid,
    )
}

/// The caller sits in a registered game whose rotation carries them.
pub open spec fn in_game(players: PlayerService, games: GameService, cid: u32) -> bool {
    let gid = players.player_of(cid).game->Some_0;
    &&& players.has(cid)
    &&& players.player_of(cid).game is Some
    &&& crate::game_service::games_has(games.spec_games(), gid)
    &&& crate::game::queue_has(
        crate::game_service::game_of(games.spec_games(), gid).spec_queue(),
        cid,
    )
}

/// The caller holds the current turn of their game.
pub open spec fn holds_turn(players: PlayerService, games: GameService, cid: u32) -> bool {
    let gid = players.player_of(cid).game->Some_0;
    &&& in_game(players, games, cid)
    &&& crate::game_service::game_of(games.spec_games(), gid).spec_queue()[0].player_id == cid
}

/// The join the caller asks for is possible: no current lobby, the room
/// exists, they are not already in it, and it has space.
pub open spec fn join_allowed(
    players: PlayerService,
    lobbies: LobbyService,
    cid: u32,
    lid: u32,
) -> bool {
    let l = crate::lobby::lobby_of(lobbies.spec_lobbies(), lid);
    &&& players.has(cid)
    &&& players.player_of(cid).lobby is None
    &&& crate::lobby::lobbies_has(lobbies.spec_lobbies(), lid)
    &&& !crate::lobby::roster_has(l.roster(), cid)
    &&& l.roster().len() < l.spec_max_players()
}

/// The start the caller asks for is owed: they lead their registered,
/// non-empty lobby and every member is ready.
pub open spec fn start_allowed(players: PlayerService, lobbies: LobbyService, cid: u32) -> bool {
    let lid = players.player_of(cid).lobby->Some_0;
    let l = crate::lobby::lobby_of(lobbies.spec_lobbies(), lid);
    &&& players.has(cid)
    &&& players.player_of(cid).lobby is Some
    &&& crate::lobby::lobbies_has(lobbies.spec_lobbies(), lid)
    &&& l.roster().len() >= 1
    &&& l.spec_leader() == cid
    &&& crate::lobby::roster_all_ready(l.roster())
}

/// Registers a new session for the connecting client.
#[derive(Debug, Clone, Copy, PartialEq, Eq, Structural)]
pub struct ConnectController {}

impl ConnectController {
    pub fn new() -> (c: ConnectController)
        ensures
            c == (ConnectController {  }),
    {
        ConnectController {  }
    }

    /// A client id connects once: a second connect is refused, a first
    /// one registers the player under the given display name with the
    /// clock reading as its first heartbeat.
    pub fn handle_request(
        &self,
        req: &Request,
        context: RequestContext,
        players: &mut PlayerService,
        now: u64,
    ) -> (r: Result<ResponseData, GameError>)
        requires
            req.spec_data() is Connect,
            old(players).wf(),
        ensures
            final(players).wf(),
            r is Ok <==> !old(players).has(context.client_id),
            match r {
                Ok(rd) => {
                    &&& final(players).has(context.client_id)
                    &&& final(players).players().len() == old(players).players().len() + 1
                    &&& final(players).players().take(old(players).players().len() as int)
                        == old(players).players()
                    &&& final(players).players().last().id == context.client_id
                    &&& final(players).players().last().name@
                        == req.spec_data()->Connect_0.name@
                    &&& final(players).players().last().lobby is None
                    &&& final(players).players().last().game is None
                    &&& final(players).players().last().last_heartbeat == now
                    &&& rd matches ResponseData::Connect(cr) && cr.success && (
                    cr.player matches Some(p) && p.id == context.client_id && p.name@
                        == req.spec_data()->Connect_0.name@)
                },
                Err(e) => {
                    &&& e == GameError::ClientAlreadyConnected
                    &&& final(players).players() == old(players).players()
                },
            },
    {
        let name = match req.get_data() {
            RequestData::Connect(cr) => cr.name.clone(),
            _ => {
                return Err(GameError::ClientAlreadyConnected);
            },
        };
        match players.get_player(context.client_id) {
            Some(_) => Err(GameError::ClientAlreadyConnected),
            None => {
                let reply_name = name.clone();
                players.add_player(context.client_id, name, now);
                proof {
                    assert(final(players).players().take(old(players).players().len() as int)
                        =~= old(players).players());
                }
                Ok(
                    ResponseData::Connect(
                        ConnectResponse {
                            success: true,
                            player: Some(
                                PlayerInfo { id: context.client_id, name: reply_name },
                            ),
                        },
                    ),
                )
            },
        }
    }
}

/// Tears a leaving client's session down.
#[derive(Debug, Clone, Copy, PartialEq, Eq, Structural)]
pub struct DisconnectController {}

impl DisconnectController {
    pub fn new() -> (c: DisconnectController)
        ensures
            c == (DisconnectController {  }),
    {
        DisconnectController {  }
    }

    /// Disconnecting runs the same cascade as a dropped connection: the
    /// player leaves lobby and game, then the session entry goes.
    pub fn handle_request(
        &self,
        req: &Request,
        context: RequestContext,
        players: &mut PlayerService,
        lobbies: &mut LobbyService,
        games: &mut GameService,
        outbox: &mut Vec<Broadcast>,
    ) -> (r: Result<ResponseData, GameError>)
        requires
            req.spec_data() is Disconnect,
            old(players).wf(),
            old(lobbies).wf(),
            old(games).wf(),
        ensures
            final(players).wf(),
            final(lobbies).wf(),
            final(games).wf(),
            r is Ok <==> old(players).has(context.client_id),
            match r {
                Ok(rd) => {
                    let cid = context.client_id;
                    let lid = old(players).player_of(cid).lobby->Some_0;
                    let gid = old(players).player_of(cid).game->Some_0;
                    let l0 = crate::lobby::lobby_of(old(lobbies).spec_lobbies(), lid);
                    let g0 = crate::game_service::game_of(old(games).spec_games(), gid);
                    &&& !final(players).has(cid)
                    &&& (rd matches ResponseData::Disconnect(d) && d.success)
                    &&& (in_lobby(*old(players), *old(lobbies), cid) && cid == l0.spec_leader()
                        ==> !crate::lobby::lobbies_has(final(lobbies).spec_lobbies(), lid))
                    &&& (in_lobby(*old(players), *old(lobbies), cid) && cid != l0.spec_leader()
                        ==> crate::lobby::lobbies_has(final(lobbies).spec_lobbies(), lid)
                        && !crate::lobby::roster_has(
                        crate::lobby::lobby_of(final(lobbies).spec_lobbies(), lid).roster(),
                        cid,
                    ))
                    &&& (in_game(*old(players), *old(games), cid)
                        ==> (crate::game_service::games_has(final(games).spec_games(), gid)
                        ==> !crate::game::queue_has(
                        crate::game_service::game_of(
                            final(games).spec_games(),
                            gid,
                        ).spec_queue(),
                        cid,
                    )))
                },
                Err(e) => e == GameError::PlayerNotFound && final(players).players() == old(players).players() && final(lobbies).spec_lobbies() == old(lobbies).spec_lobbies()
                    && final(games).spec_games() == old(games).spec_games() && final(outbox)@
                    == old(outbox)@,
            },
    {
        match PlayerService::remove_player(players, lobbies, games, context.client_id, outbox) {
            Ok(_) => Ok(ResponseData::Disconnect(DisconnectResponse { success: true })),
            Err(e) => Err(e),
        }
    }
}

/// Refreshes a session's idle clock.
#[derive(Debug, Clone, Copy, PartialEq, Eq, Structural)]
pub struct HeartbeatController {}

impl HeartbeatController {
    pub fn new() -> (c: HeartbeatController)
        ensures
            c == (HeartbeatController {  }),
    {
        HeartbeatController {  }
    }

    /// A heartbeat refreshes the sender's timestamp; an unregistered
    /// sender is refused.
    pub fn handle_request(
        &self,
        req: &Request,
        context: RequestContext,
        players: &mut PlayerService,
        now: u64,
    ) -> (r: Result<ResponseData, GameError>)
        requires
            req.spec_data() is Heartbeat,
            old(players).wf(),
        ensures
            final(players).wf(),
            r is Ok <==> old(players).has(context.client_id),
            match r {
                Ok(rd) => (rd matches ResponseData::Heartbeat(h) && h.success) && exists|i: int|
                    0 <= i < old(players).players().len() && (#[trigger] old(players).players()[
                        i]).id == context.client_id && final(players).players() == old(players).players().update(
                        i,
                        crate::player::Player {
                            last_heartbeat: now,
                            ..old(players).players()[i]
                        },
                    ),
                Err(e) => e == GameError::PlayerNotFound && final(players).players() == old(players).players(),
            },
    {
        match players.heartbeat(context.client_id, now) {
            Ok(()) => Ok(ResponseData::Heartbeat(HeartbeatResponse { success: true })),
            Err(e) => Err(e),
        }
    }
}

/// Opens a new lobby led by the caller.
#[derive(Debug, Clone, Copy, PartialEq, Eq, Structural)]
pub struct CreateController {}

impl CreateController {
    pub fn new() -> (c: CreateController)
        ensures
            c == (CreateController {  }),
    {
        CreateController {  }
    }

    /// A registered player opens a room; the player bound must lie in
    /// 4 to 8.
    pub fn handle_request(
        &self,
        req: &Request,
        context: RequestContext,
        players: &mut PlayerService,
        lobbies: &mut LobbyService,
    ) -> (r: Result<ResponseData, GameError>)
        requires
            req.spec_data() is CreateLobby,
            old(players).wf(),
            old(lobbies).wf(),
            old(lobbies).spec_next_id() < u32::MAX,
        ensures
            final(players).wf(),
            final(lobbies).wf(),
            r is Ok <==> (old(players).has(context.client_id) && 4
                <= req.spec_data()->CreateLobby_0.max_players <= 8),
            match r {
                Ok(rd) => {
                    &&& final(lobbies).spec_lobbies() == old(lobbies).spec_lobbies().push(
                        final(lobbies).spec_lobbies().last(),
                    )
                    &&& final(lobbies).spec_lobbies().last().spec_id() == old(lobbies).spec_next_id()
                    &&& final(lobbies).spec_lobbies().last().spec_leader() == context.client_id
                    &&& final(lobbies).spec_lobbies().last().roster() == seq![
                        crate::lobby::LobbyPlayer { player_id: context.client_id, ready: false },
                    ]
                    &&& final(players).player_of(context.client_id).lobby == Some(
                        old(lobbies).spec_next_id(),
                    )
                    &&& rd matches ResponseData::CreateLobby(cr) && cr.success && (
                    cr.lobby matches Some(l) && l.id == old(lobbies).spec_next_id()
                        && l.players@.len() == 1 && l.players@[0].id == context.client_id)
                },
                Err(e) => {
                    &&& (e == GameError::PlayerNotFound || e == GameError::InvalidMaxPlayers)
                    &&& (e == GameError::PlayerNotFound <==> !old(players).has(context.client_id))
                    &&& (e == GameError::InvalidMaxPlayers <==> (old(players).has(
                        context.client_id,
                    ) && !(4 <= req.spec_data()->CreateLobby_0.max_players <= 8)))
                    &&& final(lobbies).spec_lobbies() == old(lobbies).spec_lobbies()
                    &&& final(players).players() == old(players).players()
                },
            },
    {
        let max_players = match req.get_data() {
            RequestData::CreateLobby(cr) => cr.max_players,
            _ => {
                return Err(GameError::InvalidMaxPlayers);
            },
        };
        if players.get_player(context.client_id).is_none() {
            return Err(GameError::PlayerNotFound);
        }
        let id = match lobbies.create_lobby(players, context.client_id, max_players) {
            Ok(id) => id,
            Err(e) => {
                return Err(e);
            },
        };
        proof {
            let n = lobbies.spec_lobbies().len();
            crate::lobby::lemma_lobby_of_index(lobbies.spec_lobbies(), n - 1, id);
        }
        let data = match lobbies.get_lobby(id) {
            Some(l) => l.to_lobby_data(players),
            None => {
                return Err(GameError::LobbyNotFound);
            },
        };
        Ok(ResponseData::CreateLobby(CreateResponse { success: true, lobby: Some(data) }))
    }
}

/// Joins the caller to an open lobby.
#[derive(Debug, Clone, Copy, PartialEq, Eq, Structural)]
pub struct JoinController {}

impl JoinController {
    pub fn new() -> (c: JoinController)
        ensures
            c == (JoinController {  }),
    {
        JoinController {  }
    }

    /// A registered, lobbyless player joins a room that has space; the
    /// other members learn of it.
    pub fn handle_request(
        &self,
        req: &Request,
        context: RequestContext,
        players: &mut PlayerService,
        lobbies: &mut LobbyService,
        outbox: &mut Vec<Broadcast>,
    ) -> (r: Result<ResponseData, GameError>)
        requires
            req.spec_data() is JoinLobby,
            old(players).wf(),
            old(lobbies).wf(),
        ensures
            final(players).wf(),
            final(lobbies).wf(),
            r is Ok <==> join_allowed(
                *old(players),
                *old(lobbies),
                context.client_id,
                req.spec_data()->JoinLobby_0.lobby_id,
            ),
            match r {
                Ok(rd) => {
                    let lid = req.spec_data()->JoinLobby_0.lobby_id;
                    &&& final(players).player_of(context.client_id).lobby == Some(lid)
                    &&& crate::lobby::lobbies_has(final(lobbies).spec_lobbies(), lid)
                    &&& crate::lobby::roster_has(
                        crate::lobby::lobby_of(final(lobbies).spec_lobbies(), lid).roster(),
                        context.client_id,
                    )
                    &&& final(outbox)@.len() == old(outbox)@.len() + 1
                    &&& rd matches ResponseData::JoinLobby(jr) && jr.success && (
                    jr.lobby matches Some(l) && l.id == lid)
                },
                Err(e) => {
                    let lid = req.spec_data()->JoinLobby_0.lobby_id;
                    let l = crate::lobby::lobby_of(old(lobbies).spec_lobbies(), lid);
                    &&& final(lobbies).spec_lobbies() == old(lobbies).spec_lobbies()
                    &&& final(players).players() == old(players).players()
                    &&& final(outbox)@ == old(outbox)@
                    &&& (e == GameError::PlayerNotFound <==> !old(players).has(context.client_id))
                    &&& (e == GameError::PlayerAlreadyInLobby <==> (old(players).has(
                        context.client_id,
                    ) && old(players).player_of(context.client_id).lobby is Some))
                    &&& (e == GameError::LobbyNotFound <==> (old(players).has(context.client_id)
                        && old(players).player_of(context.client_id).lobby is None
                        && !crate::lobby::lobbies_has(old(lobbies).spec_lobbies(), lid)))
                    &&& (e == GameError::PlayerAlreadyInThisLobby <==> (old(players).has(
                        context.client_id,
                    ) && old(players).player_of(context.client_id).lobby is None
                        && crate::lobby::lobbies_has(old(lobbies).spec_lobbies(), lid)
                        && crate::lobby::roster_has(l.roster(), context.client_id)))
                    &&& (e == GameError::LobbyFull <==> (old(players).has(context.client_id)
                        && old(players).player_of(context.client_id).lobby is None
                        && crate::lobby::lobbies_has(old(lobbies).spec_lobbies(), lid)
                        && !crate::lobby::roster_has(l.roster(), context.client_id)
                        && l.roster().len() >= l.spec_max_players()))
                },
            },
    {
        let lobby_id = match req.get_data() {
            RequestData::JoinLobby(jr) => jr.lobby_id,
            _ => {
                return Err(GameError::LobbyNotFound);
            },
        };
        match lobbies.add_player_to_lobby(players, context.client_id, lobby_id, outbox) {
            Ok(()) => {},
            Err(e) => {
                return Err(e);
            },
        }
        proof {
            let i = choose|i: int|
                0 <= i < old(lobbies).spec_lobbies().len() && (#[trigger] old(lobbies).spec_lobbies()[i]).spec_id() == lobby_id && lobbies.spec_lobbies()
                    == old(lobbies).spec_lobbies().update(i, lobbies.spec_lobbies()[i])
                    && lobbies.spec_lobbies()[i].roster() == old(lobbies).spec_lobbies()[
                    i].roster().push(
                    crate::lobby::LobbyPlayer { player_id: context.client_id, ready: false },
                ) && !crate::lobby::roster_has(
                    old(lobbies).spec_lobbies()[i].roster(),
                    context.client_id,
                ) && old(lobbies).spec_lobbies()[i].roster().len() < old(lobbies).spec_lobbies()[
                    i].spec_max_players() && lobbies.spec_lobbies()[i].spec_id() == lobby_id;
            crate::lobby::lemma_lobby_of_index(old(lobbies).spec_lobbies(), i, lobby_id);
            crate::lobby::lemma_lobby_of_index(lobbies.spec_lobbies(), i, lobby_id);
            assert(lobbies.spec_lobbies()[i].roster().last().player_id == context.client_id);
        }
        let data = match lobbies.get_lobby(lobby_id) {
            Some(l) => l.to_lobby_data(players),
            None => {
                return Err(GameError::LobbyNotFound);
            },
        };
        Ok(ResponseData::JoinLobby(JoinResponse { success: true, lobby: Some(data) }))
    }
}

/// Withdraws the caller from their lobby.
#[derive(Debug, Clone, Copy, PartialEq, Eq, Structural)]
pub struct QuitController {}

impl QuitController {
    pub fn new() -> (c: QuitController)
        ensures
            c == (QuitController {  }),
    {
        QuitController {  }
    }

    /// Leaving a room tells the remaining members; the leader's leaving
    /// destroys the room.
    pub fn handle_request(
        &self,
        req: &Request,
        context: RequestContext,
        players: &mut PlayerService,
        lobbies: &mut LobbyService,
        outbox: &mut Vec<Broadcast>,
    ) -> (r: Result<ResponseData, GameError>)
        requires
            req.spec_data() is QuitLobby,
            old(players).wf(),
            old(lobbies).wf(),
        ensures
            final(players).wf(),
            final(lobbies).wf(),
            r is Ok <==> in_lobby(*old(players), *old(lobbies), context.client_id),
            match r {
                Ok(rd) => {
                    &&& rd matches ResponseData::QuitLobby(q) && q.success
                    &&& exists|lp: crate::lobby::LobbyPlayer|
                        #[trigger] crate::lobby::left_lobby(
                            *old(lobbies),
                            *final(lobbies),
                            *old(players),
                            *final(players),
                            context.client_id,
                            old(outbox)@,
                            final(outbox)@,
                            lp,
                        )
                },
                Err(e) => final(lobbies).spec_lobbies() == old(lobbies).spec_lobbies() && final(players).players() == old(players).players() && final(outbox)@ == old(outbox)@,
            },
    {
        match lobbies.remove_player_from_lobby(players, context.client_id, outbox) {
            Ok(lp) => {
                proof {
                    assert(crate::lobby::left_lobby(
                        *old(lobbies),
                        *final(lobbies),
                        *old(players),
                        *final(players),
                        context.client_id,
                        old(outbox)@,
                        final(outbox)@,
                        lp,
                    ));
                }
                Ok(ResponseData::QuitLobby(QuitResponse { success: true }))
            },
            Err(e) => Err(e),
        }
    }
}

/// Lists the open lobbies.
#[derive(Debug, Clone, Copy, PartialEq, Eq, Structural)]
pub struct ListController {}

impl ListController {
    pub fn new() -> (c: ListController)
        ensures
            c == (ListController {  }),
    {
        ListController {  }
    }

    /// The listing carries every open room's id, bound and headcount.
    pub fn handle_request(&self, req: &Request, lobbies: &LobbyService) -> (r: Result<
        ResponseData,
        GameError,
    >)
        requires
            req.spec_data() is ListLobby,
            lobbies.wf(),
        ensures
            r matches Ok(rd) && rd matches ResponseData::ListLobby(lr) && lr.success
                && lr.lobby_infos@.len() == lobbies.spec_lobbies().len() && (forall|i: int|
                0 <= i < lr.lobby_infos@.len() ==> (#[trigger] lr.lobby_infos@[i])
                    == (crate::messages::LobbyInfo {
                    id: lobbies.spec_lobbies()[i].spec_id(),
                    max_players: lobbies.spec_lobbies()[i].spec_max_players(),
                    cur_players: lobbies.spec_lobbies()[i].roster().len() as u32,
                })),
    {
        Ok(
            ResponseData::ListLobby(
                ListResponse { success: true, lobby_infos: lobbies.get_lobbies() },
            ),
        )
    }
}

/// Toggles the caller's ready flag.
#[derive(Debug, Clone, Copy, PartialEq, Eq, Structural)]
pub struct ReadyController {}

impl ReadyController {
    pub fn new() -> (c: ReadyController)
        ensures
            c == (ReadyController {  }),
    {
        ReadyController {  }
    }

    /// Readiness is a toggle: each request flips the member's flag; it
    /// only gates the start.
    pub fn handle_request(
        &self,
        req: &Request,
        context: RequestContext,
        players: &mut PlayerService,
        lobbies: &mut LobbyService,
    ) -> (r: Result<ResponseData, GameError>)
        requires
            req.spec_data() is Ready,
            old(players).wf(),
            old(lobbies).wf(),
        ensures
            final(players).wf(),
            final(lobbies).wf(),
            final(players).players() == old(players).players(),
            r is Ok <==> in_lobby(*old(players), *old(lobbies), context.client_id),
            match r {
                Ok(rd) => (rd matches ResponseData::Ready(rr) && rr.success) && exists|v: bool|
                    #[trigger] crate::lobby::ready_toggled(
                        *old(lobbies),
                        *final(lobbies),
                        old(players).player_of(context.client_id).lobby->Some_0,
                        context.client_id,
                        v,
                    ),
                Err(e) => {
                    &&& final(lobbies).spec_lobbies() == old(lobbies).spec_lobbies()
                    &&& (e == GameError::PlayerNotFound || e == GameError::PlayerNotInLobby || e
                        == GameError::LobbyNotFound)
                    &&& (e == GameError::PlayerNotFound <==> !old(players).has(context.client_id))
                    &&& (e == GameError::PlayerNotInLobby <==> (old(players).has(
                        context.client_id,
                    ) && (old(players).player_of(context.client_id).lobby is None || (old(players).player_of(context.client_id).lobby is Some
                        && crate::lobby::lobbies_has(
                        old(lobbies).spec_lobbies(),
                        old(players).player_of(context.client_id).lobby->Some_0,
                    ) && !crate::lobby::roster_has(
                        crate::lobby::lobby_of(
                            old(lobbies).spec_lobbies(),
                            old(players).player_of(context.client_id).lobby->Some_0,
                        ).roster(),
                        context.client_id,
                    )))))
                    &&& (e == GameError::LobbyNotFound <==> (old(players).has(context.client_id)
                        && old(players).player_of(context.client_id).lobby is Some
                        && !crate::lobby::lobbies_has(
                        old(lobbies).spec_lobbies(),
                        old(players).player_of(context.client_id).lobby->Some_0,
                    )))
                },
            },
    {
        let p = match players.get_player(context.client_id) {
            Some(p) => p,
            None => {
                return Err(GameError::PlayerNotFound);
            },
        };
        proof {
            let iw = choose|i: int|
                0 <= i < old(players).players().len() && (#[trigger] old(players).players()[
                    i]).id == context.client_id && p.name@ == old(players).players()[i].name@
                    && p.lobby == old(players).players()[i].lobby && p.game == old(players).players()[i].game;
            let j = choose|j: int|
                0 <= j < old(players).players().len() && (#[trigger] old(players).players()[
                    j]).id == context.client_id;
            assert(0 <= iw < old(players).players().len() && old(players).players()[iw].id
                == context.client_id && p.lobby == old(players).players()[iw].lobby);
            assert(iw == j);
            assert(old(players).player_of(context.client_id).lobby == p.lobby);
        }
        let lobby_id = match p.lobby {
            Some(l) => l,
            None => {
                return Err(GameError::PlayerNotInLobby);
            },
        };
        match lobbies.toggle_ready(lobby_id, context.client_id) {
            Ok(_) => Ok(ResponseData::Ready(ReadyResponse { success: true })),
            Err(e) => Err(e),
        }
    }
}


/// Starts the game from the caller's lobby.
#[derive(Debug, Clone, Copy, PartialEq, Eq, Structural)]
pub struct StartController {}

impl StartController {
    pub fn new() -> (c: StartController)
        ensures
            c == (StartController {  }),
    {
        StartController {  }
    }

    /// Only the lobby's leader starts, and only once every member is
    /// ready; the new game begins at turn one with the roster in
    /// joining order and the first turn's timer armed.
    pub fn handle_request(
        &self,
        req: &Request,
        context: RequestContext,
        players: &mut PlayerService,
        lobbies: &mut LobbyService,
        games: &mut GameService,
        outbox: &mut Vec<Broadcast>,
    ) -> (r: Result<ResponseData, GameError>)
        requires
            req.spec_data() is StartGame,
            old(players).wf(),
            old(lobbies).wf(),
            old(games).wf(),
            old(games).spec_next_id() < u32::MAX,
        ensures
            final(players).wf(),
            final(lobbies).wf(),
            final(games).wf(),
            final(lobbies).spec_lobbies() == old(lobbies).spec_lobbies(),
            r is Ok <==> start_allowed(*old(players), *old(lobbies), context.client_id),
            match r {
                Ok(rd) => {
                    &&& rd matches ResponseData::StartGame(sr) && sr.success
                    &&& exists|out: crate::game_service::StartOutcome|
                        #[trigger] crate::game_service::game_started(
                            *old(games),
                            *final(games),
                            *final(players),
                            old(outbox)@,
                            final(outbox)@,
                            crate::lobby::lobby_of(
                                old(lobbies).spec_lobbies(),
                                old(players).player_of(context.client_id).lobby->Some_0,
                            ),
                            context.client_id,
                            out,
                        )
                },
                Err(e) => {
                    let lid = old(players).player_of(context.client_id).lobby->Some_0;
                    let l = crate::lobby::lobby_of(old(lobbies).spec_lobbies(), lid);
                    &&& final(games).spec_games() == old(games).spec_games()
                    &&& final(players).players() == old(players).players()
                    &&& final(outbox)@ == old(outbox)@
                    &&& (e == GameError::PlayerNotFound || e == GameError::PlayerNotInLobby || e
                        == GameError::LobbyNotFound || e == GameError::OnlyLeaderCanStart || e
                        == GameError::NotAllPlayersReady)
                    &&& (e == GameError::PlayerNotFound <==> !old(players).has(context.client_id))
                    &&& (e == GameError::PlayerNotInLobby <==> (old(players).has(
                        context.client_id,
                    ) && old(players).player_of(context.client_id).lobby is None))
                    &&& (e == GameError::LobbyNotFound <==> (old(players).has(context.client_id)
                        && old(players).player_of(context.client_id).lobby is Some && (
                    !crate::lobby::lobbies_has(old(lobbies).spec_lobbies(), lid) || l.roster().len()
                        == 0)))
                    &&& (e == GameError::OnlyLeaderCanStart <==> (old(players).has(
                        context.client_id,
                    ) && old(players).player_of(context.client_id).lobby is Some
                        && crate::lobby::lobbies_has(old(lobbies).spec_lobbies(), lid)
                        && l.roster().len() >= 1 && l.spec_leader() != context.client_id))
                    &&& (e == GameError::NotAllPlayersReady <==> (old(players).has(
                        context.client_id,
                    ) && old(players).player_of(context.client_id).lobby is Some
                        && crate::lobby::lobbies_has(old(lobbies).spec_lobbies(), lid)
                        && l.roster().len() >= 1 && l.spec_leader() == context.client_id
                        && !crate::lobby::roster_all_ready(l.roster())))
                },
            },
    {
        let p = match players.get_player(context.client_id) {
            Some(p) => p,
            None => {
                return Err(GameError::PlayerNotFound);
            },
        };
        proof {
            let iw = choose|i: int|
                0 <= i < old(players).players().len() && (#[trigger] old(players).players()[
                    i]).id == context.client_id && p.name@ == old(players).players()[i].name@
                    && p.lobby == old(players).players()[i].lobby && p.game == old(players).players()[i].game;
            old(players).lemma_player_of_index(iw, context.client_id);
            assert(old(players).player_of(context.client_id).lobby == p.lobby);
        }
        let lobby_id = match p.lobby {
            Some(l) => l,
            None => {
                return Err(GameError::PlayerNotInLobby);
            },
        };
        let lobby = match lobbies.get_lobby(lobby_id) {
            Some(l) => l.clone(),
            None => {
                return Err(GameError::LobbyNotFound);
            },
        };
        proof {
            let li = choose|li: int|
                0 <= li < lobbies.spec_lobbies().len() && lobby.spec_id() == lobby_id && (
                #[trigger] lobbies.spec_lobbies()[li]).spec_id() == lobby_id
                    && lobby.roster() == lobbies.spec_lobbies()[li].roster() && lobby.spec_leader()
                    == lobbies.spec_lobbies()[li].spec_leader() && lobby.spec_max_players()
                    == lobbies.spec_lobbies()[li].spec_max_players();
            crate::lobby::lemma_lobby_of_index(old(lobbies).spec_lobbies(), li, lobby_id);
        }
        if lobby.get_players().len() == 0 {
            return Err(GameError::LobbyNotFound);
        }
        let out = match games.start_game(players, &lobby, context.client_id, outbox) {
            Ok(out) => out,
            Err(e) => {
                return Err(e);
            },
        };
        proof {
            let n = games.spec_games().len();
            assert(games.spec_games()[n - 1].spec_id() == out.game_id);
            let i2 = crate::game_service::game_index_of(games.spec_games(), out.game_id);
            assert(0 <= i2 < n && games.spec_games()[i2].spec_id() == out.game_id);
        }
        let game = match games.get_game(out.game_id) {
            Some(g) => g,
            None => {
                return Err(GameError::GameNotFound);
            },
        };
        let cards = match game.find_player(context.client_id) {
            Some(qi) => game.player_at(qi).get_cards(),
            None => Vec::new(),
        };
        let board_copy = if game.player_count() > 0 {
            Some(game.get_board().clone())
        } else {
            None
        };
        let current = if game.player_count() > 0 {
            Some(PlayerInfo { id: game.get_player_in_this_turn().player_id, name: String::new() })
        } else {
            None
        };
        let next = if game.player_count() > 0 {
            match game.get_next_turn_player() {
                Some(np) => Some(PlayerInfo { id: np.player_id, name: String::new() }),
                None => None,
            }
        } else {
            None
        };
        proof {
            let l2 = crate::lobby::lobby_of(old(lobbies).spec_lobbies(), lobby_id);
            assert(lobby.roster() == l2.roster());
            assert(crate::game_service::game_started(
                *old(games),
                *games,
                *players,
                old(outbox)@,
                outbox@,
                l2,
                context.client_id,
                out,
            ));
        }
        Ok(
            ResponseData::StartGame(
                StartResponse {
                    success: true,
                    board: board_copy,
                    cards,
                    current_player: current,
                    next_player: next,
                },
            ),
        )
    }
}

/// After an accepted placement: in the caller's game, the chosen cell
/// carries a tile with the caller's id and the chosen hand card's
/// letter, and that card is marked used.
pub open spec fn placed_tile(
    players_pre: crate::player::PlayerService,
    games_pre: GameService,
    games_post: GameService,
    outbox_pre: Seq<Broadcast>,
    outbox_post: Seq<Broadcast>,
    client_id: u32,
    x: u32,
    y: u32,
    card_index: u32,
) -> bool {
    let gid = players_pre.player_of(client_id).game->Some_0;
    let i = crate::game_service::game_index_of(games_pre.spec_games(), gid);
    let g0 = crate::game_service::game_of(games_pre.spec_games(), gid);
    let qi = crate::game::queue_index_of(g0.spec_queue(), client_id);
    let gp0 = crate::game::queue_player(g0.spec_queue(), client_id);
    let g2 = crate::game_service::game_of(games_post.spec_games(), gid);
    let gp2 = g2.spec_queue()[qi];
    &&& players_pre.has(client_id)
    &&& players_pre.player_of(client_id).game is Some
    &&& crate::game_service::games_has(games_post.spec_games(), gid)
    &&& crate::game::queue_has(g2.spec_queue(), client_id)
    &&& x < 26 && y < 26 && card_index < 8
    &&& gp2.cards@.len() == 8
    &&& (g2.spec_board().cell(x as int, y as int) matches Some(t) && t.owner == client_id
        && t.ch == gp2.cards@[card_index as int].ch && t.turn == g2.spec_turn())
    &&& gp2.cards@[card_index as int].used
    // the frame: one cell, one card, nothing else
    &&& games_post.spec_games() == games_pre.spec_games().update(i, g2)
    &&& g2.spec_queue() == g0.spec_queue().update(qi, gp2)
    &&& gp2.player_id == client_id
    &&& gp2.has_shuffled == gp0.has_shuffled
    &&& gp2.cards@ == gp0.cards@.update(
        card_index as int,
        crate::cards::Card { ch: gp0.cards@[card_index as int].ch, used: true },
    )
    &&& forall|r2: int, c2: int|
        0 <= r2 < 26 && 0 <= c2 < 26 && !(r2 == x as int && c2 == y as int)
            ==> g2.spec_board().cell(r2, c2) == g0.spec_board().cell(r2, c2)
    &&& g2.spec_turn() == g0.spec_turn()
    &&& g2.spec_backup() == g0.spec_backup()
    &&& g2.spec_timer() == g0.spec_timer()
    &&& g2.spec_token_counter() == g0.spec_token_counter()
    &&& g2.spec_id() == g0.spec_id()
    // the other players see the changed board
    &&& outbox_post == outbox_pre.push(outbox_post.last())
    &&& crate::game_service::placetile_broadcast(outbox_post.last(), g2)
}

/// The caller may place: they sit in their game, the referenced hand
/// card exists unused, they hold the turn, and the cell is on the board.
pub open spec fn set_tile_allowed(
    players: PlayerService,
    games: GameService,
    cid: u32,
    x: u32,
    y: u32,
    card_index: u32,
) -> bool {
    let gid = players.player_of(cid).game->Some_0;
    let g0 = crate::game_service::game_of(games.spec_games(), gid);
    let gp0 = crate::game::queue_player(g0.spec_queue(), cid);
    &&& in_game(players, games, cid)
    &&& card_index < 8
    &&& !gp0.cards@[card_index as int].used
    &&& g0.spec_queue()[0].player_id == cid
    &&& x < 26 && y < 26
}

/// Places one hand card on the board.
#[derive(Debug, Clone, Copy, PartialEq, Eq, Structural)]
pub struct SetTileController {}

impl SetTileController {
    pub fn new() -> (c: SetTileController)
        ensures
            c == (SetTileController {  }),
    {
        SetTileController {  }
    }

    /// Placement is the current turn holder's privilege: the referenced
    /// hand card must exist unused, the cell must lie on the board; the
    /// cell takes the tile and the card is marked used.
    pub fn handle_request(
        &self,
        req: &Request,
        context: RequestContext,
        players: &mut PlayerService,
        games: &mut GameService,
        outbox: &mut Vec<Broadcast>,
    ) -> (r: Result<ResponseData, GameError>)
        requires
            req.spec_data() is SetTile,
            old(players).wf(),
            old(games).wf(),
        ensures
            final(players).wf(),
            final(games).wf(),
            final(players).players() == old(players).players(),
            r is Ok <==> set_tile_allowed(
                *old(players),
                *old(games),
                context.client_id,
                req.spec_data()->SetTile_0.x,
                req.spec_data()->SetTile_0.y,
                req.spec_data()->SetTile_0.card_index,
            ),
            match r {
                Ok(rd) => rd matches ResponseData::SetTile(sr) && sr.success && (
                req.spec_data() matches RequestData::SetTile(tr) && placed_tile(
                    *old(players),
                    *old(games),
                    *final(games),
                    old(outbox)@,
                    final(outbox)@,
                    context.client_id,
                    tr.x,
                    tr.y,
                    tr.card_index,
                )),
                Err(e) => {
                    let cid = context.client_id;
                    let gid = old(players).player_of(cid).game->Some_0;
                    let g0 = crate::game_service::game_of(old(games).spec_games(), gid);
                    let gp0 = crate::game::queue_player(g0.spec_queue(), cid);
                    let idx = req.spec_data()->SetTile_0.card_index;
                    let c1 = old(players).has(cid);
                    let c2 = old(players).player_of(cid).game is Some;
                    let c3 = crate::game_service::games_has(old(games).spec_games(), gid);
                    let c4 = crate::game::queue_has(g0.spec_queue(), cid);
                    let c5 = idx < 8;
                    let c6 = !gp0.cards@[idx as int].used;
                    let c7 = g0.spec_queue()[0].player_id == cid;
                    &&& final(games).spec_games() == old(games).spec_games()
                    &&& final(outbox)@ == old(outbox)@
                    &&& (e == GameError::PlayerNotFound || e == GameError::PlayerNotInGame || e
                        == GameError::GameNotFound || e == GameError::CardNotFound || e
                        == GameError::CardAlreadyUsed || e == GameError::NotYourTurn || e
                        == GameError::TileOutOfBoard)
                    &&& (e == GameError::PlayerNotFound <==> (!c1 || (c1 && c2 && c3 && !c4)))
                    &&& (e == GameError::PlayerNotInGame <==> (c1 && !c2))
                    &&& (e == GameError::GameNotFound <==> (c1 && c2 && !c3))
                    &&& (e == GameError::CardNotFound <==> (c1 && c2 && c3 && c4 && !c5))
                    &&& (e == GameError::CardAlreadyUsed <==> (c1 && c2 && c3 && c4 && c5 && !c6))
                    &&& (e == GameError::NotYourTurn <==> (c1 && c2 && c3 && c4 && c5 && c6
                        && !c7))
                    &&& (e == GameError::TileOutOfBoard <==> (c1 && c2 && c3 && c4 && c5 && c6
                        && c7 && !(req.spec_data()->SetTile_0.x < 26
                        && req.spec_data()->SetTile_0.y < 26)))
                },
            },
    {
        let (x, y, card_index) = match req.get_data() {
            RequestData::SetTile(sr) => (sr.x, sr.y, sr.card_index),
            _ => {
                return Err(GameError::TileOutOfBoard);
            },
        };
        let p = match players.get_player(context.client_id) {
            Some(p) => p,
            None => {
                return Err(GameError::PlayerNotFound);
            },
        };
        proof {
            let iw = choose|i: int|
                0 <= i < old(players).players().len() && (#[trigger] old(players).players()[
                    i]).id == context.client_id && p.name@ == old(players).players()[i].name@
                    && p.lobby == old(players).players()[i].lobby && p.game == old(players).players()[i].game;
            old(players).lemma_player_of_index(iw, context.client_id);
        }
        let game_id = match p.game {
            Some(g) => g,
            None => {
                return Err(GameError::PlayerNotInGame);
            },
        };
        let game = match games.get_game(game_id) {
            Some(g) => g,
            None => {
                return Err(GameError::GameNotFound);
            },
        };
        proof {
            let gi = choose|gi: int|
                0 <= gi < games.spec_games().len() && *game == (#[trigger] games.spec_games()[
                    gi]);
            let gi2 = crate::game_service::game_index_of(games.spec_games(), game_id);
            assert(0 <= gi2 < games.spec_games().len() && games.spec_games()[gi2].spec_id()
                == game_id);
            if gi != gi2 {
                assert(games.spec_games()[gi].spec_id() != games.spec_games()[gi2].spec_id());
            }
            assert(crate::game_service::game_of(games.spec_games(), game_id) == *game);
        }
        let qi = match game.find_player(context.client_id) {
            Some(qi) => qi,
            None => {
                return Err(GameError::PlayerNotFound);
            },
        };
        proof {
            crate::game::lemma_queue_player_at(game.spec_queue(), qi as int, context.client_id);
        }
        let gp = game.player_at(qi);
        if card_index >= 8 {
            return Err(GameError::CardNotFound);
        }
        let cards = gp.get_cards();
        if cards.len() != 8 {
            return Err(GameError::CardNotFound);
        }
        let card = cards[card_index as usize];
        if card.used {
            return Err(GameError::CardAlreadyUsed);
        }
        if game.player_count() == 0 {
            return Err(GameError::NotYourTurn);
        }
        if game.get_player_in_this_turn().player_id != context.client_id {
            return Err(GameError::NotYourTurn);
        }
        if x >= 26 || y >= 26 {
            return Err(GameError::TileOutOfBoard);
        }
        let turn = game.get_turns();
        let tile = crate::board::Tile { ch: card.ch, owner: context.client_id, turn };
        let ghost g0 = crate::game_service::game_of(old(games).spec_games(), game_id);
        let ghost i0 = crate::game_service::game_index_of(old(games).spec_games(), game_id);
        match games.place_tile_on_board(game_id, tile, x as usize, y as usize, outbox) {
            Ok(()) => {},
            Err(e) => {
                return Err(e);
            },
        }
        let ghost games_mid = *games;
        match games.take_card(game_id, context.client_id, card_index as usize) {
            Ok(_) => {},
            Err(e) => {
                return Err(e);
            },
        }
        proof {
            let cid = context.client_id;
            let g1v = games_mid.spec_games()[i0];
            // the intermediate registry still holds the game at the same slot
            assert(games_mid.spec_games()[i0].spec_id() == game_id);
            let im = crate::game_service::game_index_of(games_mid.spec_games(), game_id);
            assert(0 <= im < games_mid.spec_games().len() && games_mid.spec_games()[
                im].spec_id() == game_id);
            if im != i0 {
                assert(games_mid.spec_games()[im].spec_id() != games_mid.spec_games()[
                    i0].spec_id());
            }
            assert(crate::game_service::game_of(games_mid.spec_games(), game_id) == g1v);
            let g2v = games.spec_games()[i0];
            assert(games.spec_games() =~= old(games).spec_games().update(i0, g2v));
            let i2 = crate::game_service::game_index_of(games.spec_games(), game_id);
            assert(0 <= i2 < games.spec_games().len() && games.spec_games()[i2].spec_id()
                == game_id);
            if i2 != i0 {
                assert(games.spec_games()[i2].spec_id() != games.spec_games()[i0].spec_id());
            }
            assert(crate::game_service::game_of(games.spec_games(), game_id) == g2v);
            assert(crate::game::queue_index_of(g1v.spec_queue(), cid) == crate::game::queue_index_of(g0.spec_queue(), cid));
            assert(crate::game::queue_player(g1v.spec_queue(), cid) == crate::game::queue_player(
                g0.spec_queue(),
                cid,
            ));
            assert(queue_ids(g2v.spec_queue()) =~= queue_ids(g1v.spec_queue()));
            assert(crate::game_service::placetile_broadcast(outbox@.last(), g2v));
            assert(outbox@ == old(outbox)@.push(outbox@.last()));
        }
        Ok(ResponseData::SetTile(SetTileResponse { success: true }))
    }
}

/// Finishes the caller's turn after validating the board.
#[derive(Debug, Clone, Copy, PartialEq, Eq, Structural)]
pub struct FinishTurnController {}

impl FinishTurnController {
    pub fn new() -> (c: FinishTurnController)
        ensures
            c == (FinishTurnController {  }),
    {
        FinishTurnController {  }
    }

    /// Only the turn holder finishes. A board that fails validation
    /// leaves everything untouched and answers `success = false`; an
    /// accepted board commits, scores its words and advances the turn.
    pub fn handle_request(
        &self,
        req: &Request,
        context: RequestContext,
        players: &mut PlayerService,
        games: &mut GameService,
        outbox: &mut Vec<Broadcast>,
    ) -> (r: Result<ResponseData, GameError>)
        requires
            req.spec_data() is FinishTurn,
            old(players).wf(),
            old(games).wf(),
        ensures
            final(players).wf(),
            final(games).wf(),
            r is Ok <==> holds_turn(*old(players), *old(games), context.client_id),
            match r {
                Ok(rd) => {
                    let cid = context.client_id;
                    let gid = old(players).player_of(cid).game->Some_0;
                    let g0 = crate::game_service::game_of(old(games).spec_games(), gid);
                    &&& rd matches ResponseData::FinishTurn(fr) && {
                        &&& fr.success <==> crate::board::spec_validate(
                            g0.spec_board(),
                            old(games).dict(),
                            cid,
                        ) is Some
                        &&& (fr.success ==> exists|out: crate::game_service::FinishOutcome|
                            (#[trigger] crate::game_service::explicit_finish_transition(
                                *old(games),
                                *final(games),
                                old(outbox)@,
                                final(outbox)@,
                                gid,
                                Ok(out),
                            )) && fr.words == Some(out.words))
                        &&& (!fr.success ==> final(games).spec_games() == old(games).spec_games()
                            && final(outbox)@ == old(outbox)@)
                    }
                },
                Err(e) => {
                    let cid = context.client_id;
                    let gid = old(players).player_of(cid).game->Some_0;
                    let g0 = crate::game_service::game_of(old(games).spec_games(), gid);
                    let c1 = old(players).has(cid);
                    let c2 = old(players).player_of(cid).game is Some;
                    let c3 = crate::game_service::games_has(old(games).spec_games(), gid);
                    let c4 = crate::game::queue_has(g0.spec_queue(), cid);
                    &&& final(games).spec_games() == old(games).spec_games()
                    &&& final(outbox)@ == old(outbox)@
                    &&& (e == GameError::PlayerNotFound || e == GameError::PlayerNotInGame || e
                        == GameError::GameNotFound || e == GameError::NotYourTurn)
                    &&& (e == GameError::PlayerNotFound <==> (!c1 || (c1 && c2 && c3 && !c4)))
                    &&& (e == GameError::PlayerNotInGame <==> (c1 && !c2))
                    &&& (e == GameError::GameNotFound <==> (c1 && c2 && !c3))
                    &&& (e == GameError::NotYourTurn <==> (c1 && c2 && c3 && c4
                        && g0.spec_queue()[0].player_id != cid))
                    &&& final(players).players() == old(players).players()
                },
            },
    {
        let p = match players.get_player(context.client_id) {
            Some(p) => p,
            None => {
                return Err(GameError::PlayerNotFound);
            },
        };
        proof {
            let iw = choose|i: int|
                0 <= i < old(players).players().len() && (#[trigger] old(players).players()[
                    i]).id == context.client_id && p.name@ == old(players).players()[i].name@
                    && p.lobby == old(players).players()[i].lobby && p.game == old(players).players()[i].game;
            old(players).lemma_player_of_index(iw, context.client_id);
        }
        let game_id = match p.game {
            Some(g) => g,
            None => {
                return Err(GameError::PlayerNotInGame);
            },
        };
        let game = match games.get_game(game_id) {
            Some(g) => g,
            None => {
                return Err(GameError::GameNotFound);
            },
        };
        proof {
            let gi = choose|gi: int|
                0 <= gi < games.spec_games().len() && *game == (#[trigger] games.spec_games()[
                    gi]);
            let gi2 = crate::game_service::game_index_of(games.spec_games(), game_id);
            assert(0 <= gi2 < games.spec_games().len() && games.spec_games()[gi2].spec_id()
                == game_id);
            if gi != gi2 {
                assert(games.spec_games()[gi].spec_id() != games.spec_games()[gi2].spec_id());
            }
            assert(crate::game_service::game_of(games.spec_games(), game_id) == *game);
        }
        if game.find_player(context.client_id).is_none() {
            return Err(GameError::PlayerNotFound);
        }
        if game.player_count() == 0 {
            return Err(GameError::NotYourTurn);
        }
        if game.get_player_in_this_turn().player_id != context.client_id {
            return Err(GameError::NotYourTurn);
        }
        let next_info = match game.get_next_turn_player() {
            Some(np) => Some(PlayerInfo { id: np.player_id, name: String::new() }),
            None => None,
        };
        match games.validate_board_and_finish_turn(players, game_id, outbox) {
            Ok(out) => {
                let (current, cards) = match games.get_game(game_id) {
                    Some(g2) => {
                        let cur = if g2.player_count() > 0 {
                            Some(
                                PlayerInfo {
                                    id: g2.get_player_in_this_turn().player_id,
                                    name: String::new(),
                                },
                            )
                        } else {
                            None
                        };
                        let cds = match g2.find_player(context.client_id) {
                            Some(qi) => Some(g2.player_at(qi).get_cards()),
                            None => None,
                        };
                        (cur, cds)
                    },
                    None => (None, None),
                };
                Ok(
                    ResponseData::FinishTurn(
                        FinishTurnResponse {
                            success: true,
                            current_player: current,
                            next_player: next_info,
                            cards,
                            words: Some(out.words),
                        },
                    ),
                )
            },
            Err(e) => {
                if e == GameError::InvalidWord {
                    Ok(
                        ResponseData::FinishTurn(
                            FinishTurnResponse {
                                success: false,
                                current_player: None,
                                next_player: None,
                                cards: None,
                                words: None,
                            },
                        ),
                    )
                } else {
                    Err(e)
                }
            },
        }
    }
}

/// Redraws the caller's hand, once per turn.
#[derive(Debug, Clone, Copy, PartialEq, Eq, Structural)]
pub struct GetNewCardController {}

impl GetNewCardController {
    pub fn new() -> (c: GetNewCardController)
        ensures
            c == (GetNewCardController {  }),
    {
        GetNewCardController {  }
    }

    /// Only the turn holder shuffles, and only once per turn.
    pub fn handle_request(
        &self,
        req: &Request,
        context: RequestContext,
        players: &mut PlayerService,
        games: &mut GameService,
        outbox: &mut Vec<Broadcast>,
    ) -> (r: Result<ResponseData, GameError>)
        requires
            req.spec_data() is GetNewCard,
            old(players).wf(),
            old(games).wf(),
        ensures
            final(players).wf(),
            final(games).wf(),
            final(players).players() == old(players).players(),
            r is Ok <==> (holds_turn(*old(players), *old(games), context.client_id)
                && !crate::game::queue_player(
                crate::game_service::game_of(
                    old(games).spec_games(),
                    old(players).player_of(context.client_id).game->Some_0,
                ).spec_queue(),
                context.client_id,
            ).has_shuffled),
            match r {
                Ok(rd) => rd matches ResponseData::GetNewCard(gr) && (gr.cards matches Some(cs)
                    && gr.success && crate::cards::fresh_hand(cs@)
                    && crate::game_service::shuffle_transition(
                    *old(games),
                    *final(games),
                    old(outbox)@,
                    final(outbox)@,
                    old(players).player_of(context.client_id).game->Some_0,
                    context.client_id,
                    Ok(cs),
                )),
                Err(e) => {
                    let cid = context.client_id;
                    let gid = old(players).player_of(cid).game->Some_0;
                    let g0 = crate::game_service::game_of(old(games).spec_games(), gid);
                    let c1 = old(players).has(cid);
                    let c2 = old(players).player_of(cid).game is Some;
                    let c3 = crate::game_service::games_has(old(games).spec_games(), gid);
                    let c4 = crate::game::queue_has(g0.spec_queue(), cid);
                    let c7 = g0.spec_queue()[0].player_id == cid;
                    &&& final(games).spec_games() == old(games).spec_games()
                    &&& final(outbox)@ == old(outbox)@
                    &&& (e == GameError::PlayerNotFound || e == GameError::PlayerNotInGame || e
                        == GameError::GameNotFound || e == GameError::NotYourTurn || e
                        == GameError::HasShuffled)
                    &&& (e == GameError::PlayerNotFound <==> (!c1 || (c1 && c2 && c3 && !c4)))
                    &&& (e == GameError::PlayerNotInGame <==> (c1 && !c2))
                    &&& (e == GameError::GameNotFound <==> (c1 && c2 && !c3))
                    &&& (e == GameError::NotYourTurn <==> (c1 && c2 && c3 && c4 && !c7))
                    &&& (e == GameError::HasShuffled <==> (c1 && c2 && c3 && c4 && c7
                        && crate::game::queue_player(g0.spec_queue(), cid).has_shuffled))
                },
            },
    {
        let p = match players.get_player(context.client_id) {
            Some(p) => p,
            None => {
                return Err(GameError::PlayerNotFound);
            },
        };
        proof {
            let iw = choose|i: int|
                0 <= i < old(players).players().len() && (#[trigger] old(players).players()[
                    i]).id == context.client_id && p.name@ == old(players).players()[i].name@
                    && p.lobby == old(players).players()[i].lobby && p.game == old(players).players()[i].game;
            old(players).lemma_player_of_index(iw, context.client_id);
        }
        let game_id = match p.game {
            Some(g) => g,
            None => {
                return Err(GameError::PlayerNotInGame);
            },
        };
        let game = match games.get_game(game_id) {
            Some(g) => g,
            None => {
                return Err(GameError::GameNotFound);
            },
        };
        proof {
            let gi = choose|gi: int|
                0 <= gi < games.spec_games().len() && *game == (#[trigger] games.spec_games()[
                    gi]);
            let gi2 = crate::game_service::game_index_of(games.spec_games(), game_id);
            assert(0 <= gi2 < games.spec_games().len() && games.spec_games()[gi2].spec_id()
                == game_id);
            if gi != gi2 {
                assert(games.spec_games()[gi].spec_id() != games.spec_games()[gi2].spec_id());
            }
            assert(crate::game_service::game_of(games.spec_games(), game_id) == *game);
        }
        let qi = match game.find_player(context.client_id) {
            Some(qi) => qi,
            None => {
                return Err(GameError::PlayerNotFound);
            },
        };
        proof {
            crate::game::lemma_queue_player_at(game.spec_queue(), qi as int, context.client_id);
        }
        if game.player_count() == 0 || game.get_player_in_this_turn().player_id
            != context.client_id {
            return Err(GameError::NotYourTurn);
        }
        proof {
            crate::game::lemma_queue_player_at(game.spec_queue(), 0, context.client_id);
        }
        if game.get_player_in_this_turn().get_has_shuffled() {
            return Err(GameError::HasShuffled);
        }
        match games.shuffle(game_id, context.client_id, outbox) {
            Ok(cards) => Ok(
                ResponseData::GetNewCard(GetNewCardResponse { success: true, cards: Some(cards) }),
            ),
            Err(e) => Err(e),
        }
    }
}

/// The caller may cancel: they sit in their game and the on-board cell
/// holds a tile placed in the current turn.
pub open spec fn cancel_allowed(
    players: PlayerService,
    games: GameService,
    cid: u32,
    x: u32,
    y: u32,
) -> bool {
    let gid = players.player_of(cid).game->Some_0;
    let g0 = crate::game_service::game_of(games.spec_games(), gid);
    &&& in_game(players, games, cid)
    &&& x < 26 && y < 26
    &&& (g0.spec_board().cell(x as int, y as int) matches Some(t) && t.turn == g0.spec_turn())
}

/// After an accepted cancel: in the caller's game, the chosen cell is
/// empty again and the first used hand card with the tile's letter is
/// unused again; nothing else moved, and the other players see the
/// changed board.
pub open spec fn cancelled_tile(
    players_pre: PlayerService,
    games_pre: GameService,
    games_post: GameService,
    outbox_pre: Seq<Broadcast>,
    outbox_post: Seq<Broadcast>,
    cid: u32,
    x: u32,
    y: u32,
) -> bool {
    let gid = players_pre.player_of(cid).game->Some_0;
    let i = crate::game_service::game_index_of(games_pre.spec_games(), gid);
    let g0 = crate::game_service::game_of(games_pre.spec_games(), gid);
    let t0 = g0.spec_board().cell(x as int, y as int)->Some_0;
    let qi = crate::game::queue_index_of(g0.spec_queue(), cid);
    let gp0 = crate::game::queue_player(g0.spec_queue(), cid);
    let g2 = crate::game_service::game_of(games_post.spec_games(), gid);
    let gp2 = g2.spec_queue()[qi];
    &&& crate::game_service::games_has(games_post.spec_games(), gid)
    &&& games_post.spec_games() == games_pre.spec_games().update(i, g2)
    &&& g2.spec_board().cell(x as int, y as int) is None
    &&& forall|r2: int, c2: int|
        0 <= r2 < 26 && 0 <= c2 < 26 && !(r2 == x as int && c2 == y as int)
            ==> g2.spec_board().cell(r2, c2) == g0.spec_board().cell(r2, c2)
    &&& g2.spec_queue() == g0.spec_queue().update(qi, gp2)
    &&& gp2.player_id == cid
    &&& gp2.has_shuffled == gp0.has_shuffled
    &&& (match crate::game::first_used(gp0.cards@, t0.ch, 0) {
        Some(j) => gp2.cards@ == gp0.cards@.update(
            j,
            crate::cards::Card { ch: t0.ch, used: false },
        ),
        None => gp2.cards@ == gp0.cards@,
    })
    &&& g2.spec_turn() == g0.spec_turn()
    &&& g2.spec_backup() == g0.spec_backup()
    &&& g2.spec_timer() == g0.spec_timer()
    &&& g2.spec_token_counter() == g0.spec_token_counter()
    &&& g2.spec_id() == g0.spec_id()
    &&& outbox_post == outbox_pre.push(outbox_post.last())
    &&& crate::game_service::placetile_broadcast(outbox_post.last(), g2)
}

/// Takes a placement of the current turn back.
#[derive(Debug, Clone, Copy, PartialEq, Eq, Structural)]
pub struct CancelController {}

impl CancelController {
    pub fn new() -> (c: CancelController)
        ensures
            c == (CancelController {  }),
    {
        CancelController {  }
    }

    /// Cancelling clears a cell only when its tile was placed in the
    /// current turn; the matching hand card becomes unused again.
    pub fn handle_request(
        &self,
        req: &Request,
        context: RequestContext,
        players: &mut PlayerService,
        games: &mut GameService,
        outbox: &mut Vec<Broadcast>,
    ) -> (r: Result<ResponseData, GameError>)
        requires
            req.spec_data() is Cancel,
            old(players).wf(),
            old(games).wf(),
        ensures
            final(players).wf(),
            final(games).wf(),
            final(players).players() == old(players).players(),
            r is Ok <==> cancel_allowed(
                *old(players),
                *old(games),
                context.client_id,
                req.spec_data()->Cancel_0.x,
                req.spec_data()->Cancel_0.y,
            ),
            match r {
                Ok(rd) => {
                    let cid = context.client_id;
                    let rx = req.spec_data()->Cancel_0.x;
                    let ry = req.spec_data()->Cancel_0.y;
                    let gid = old(players).player_of(cid).game->Some_0;
                    let qi = crate::game::queue_index_of(
                        crate::game_service::game_of(old(games).spec_games(), gid).spec_queue(),
                        cid,
                    );
                    &&& cancelled_tile(
                        *old(players),
                        *old(games),
                        *final(games),
                        old(outbox)@,
                        final(outbox)@,
                        cid,
                        rx,
                        ry,
                    )
                    &&& rd matches ResponseData::Cancel(cr) && cr.success && (
                    cr.cards matches Some(cs) && cs@ == crate::game_service::game_of(
                        final(games).spec_games(),
                        gid,
                    ).spec_queue()[qi].cards@)
                },
                Err(e) => {
                    let cid = context.client_id;
                    let rx = req.spec_data()->Cancel_0.x;
                    let ry = req.spec_data()->Cancel_0.y;
                    let gid = old(players).player_of(cid).game->Some_0;
                    let g0 = crate::game_service::game_of(old(games).spec_games(), gid);
                    let c1 = old(players).has(cid);
                    let c2 = old(players).player_of(cid).game is Some;
                    let c3 = crate::game_service::games_has(old(games).spec_games(), gid);
                    let c4 = crate::game::queue_has(g0.spec_queue(), cid);
                    let cb = rx < 26 && ry < 26;
                    &&& final(games).spec_games() == old(games).spec_games()
                    &&& final(outbox)@ == old(outbox)@
                    &&& (e == GameError::PlayerNotFound || e == GameError::PlayerNotInGame || e
                        == GameError::GameNotFound || e == GameError::TileOutOfBoard || e
                        == GameError::CardNotOnBoard || e == GameError::WrongTurnCancel)
                    &&& (e == GameError::PlayerNotFound <==> (!c1 || (c1 && c2 && c3 && !c4)))
                    &&& (e == GameError::PlayerNotInGame <==> (c1 && !c2))
                    &&& (e == GameError::GameNotFound <==> (c1 && c2 && !c3))
                    &&& (e == GameError::TileOutOfBoard <==> (c1 && c2 && c3 && c4 && !cb))
                    &&& (e == GameError::CardNotOnBoard <==> (c1 && c2 && c3 && c4 && cb
                        && g0.spec_board().cell(rx as int, ry as int) is None))
                    &&& (e == GameError::WrongTurnCancel <==> (c1 && c2 && c3 && c4 && cb && (
                    g0.spec_board().cell(rx as int, ry as int) matches Some(t) && t.turn
                        != g0.spec_turn())))
                },
            },
    {
        let (x, y) = match req.get_data() {
            RequestData::Cancel(cr) => (cr.x, cr.y),
            _ => {
                return Err(GameError::TileOutOfBoard);
            },
        };
        let p = match players.get_player(context.client_id) {
            Some(p) => p,
            None => {
                return Err(GameError::PlayerNotFound);
            },
        };
        proof {
            let iw = choose|i: int|
                0 <= i < old(players).players().len() && (#[trigger] old(players).players()[
                    i]).id == context.client_id && p.name@ == old(players).players()[i].name@
                    && p.lobby == old(players).players()[i].lobby && p.game == old(players).players()[i].game;
            old(players).lemma_player_of_index(iw, context.client_id);
        }
        let game_id = match p.game {
            Some(g) => g,
            None => {
                return Err(GameError::PlayerNotInGame);
            },
        };
        let game = match games.get_game(game_id) {
            Some(g) => g,
            None => {
                return Err(GameError::GameNotFound);
            },
        };
        proof {
            let gi = choose|gi: int|
                0 <= gi < games.spec_games().len() && *game == (#[trigger] games.spec_games()[
                    gi]);
            let gi2 = crate::game_service::game_index_of(games.spec_games(), game_id);
            assert(0 <= gi2 < games.spec_games().len() && games.spec_games()[gi2].spec_id()
                == game_id);
            if gi != gi2 {
                assert(games.spec_games()[gi].spec_id() != games.spec_games()[gi2].spec_id());
            }
            assert(crate::game_service::game_of(games.spec_games(), game_id) == *game);
        }
        let qi = match game.find_player(context.client_id) {
            Some(qi) => qi,
            None => {
                return Err(GameError::PlayerNotFound);
            },
        };
        proof {
            crate::game::lemma_queue_player_at(game.spec_queue(), qi as int, context.client_id);
        }
        if x >= 26 || y >= 26 {
            return Err(GameError::TileOutOfBoard);
        }
        if !game.get_board().wf_check() {
            return Err(GameError::CardNotOnBoard);
        }
        let tile = match game.get_board().get(x as usize, y as usize) {
            Some(t) => t,
            None => {
                return Err(GameError::CardNotOnBoard);
            },
        };
        if tile.turn != game.get_turns() {
            return Err(GameError::WrongTurnCancel);
        }
        let ghost g0 = crate::game_service::game_of(old(games).spec_games(), game_id);
        let ghost i0 = crate::game_service::game_index_of(old(games).spec_games(), game_id);
        match games.remove_selected_tile(x, y, game_id, outbox) {
            Ok(()) => {},
            Err(e) => {
                return Err(e);
            },
        }
        let ghost games_mid = *games;
        match games.return_card(game_id, context.client_id, tile.ch) {
            Ok(cards) => {
                proof {
                    let cid = context.client_id;
                    let g1v = games_mid.spec_games()[i0];
                    assert(games_mid.spec_games()[i0].spec_id() == game_id);
                    let im = crate::game_service::game_index_of(games_mid.spec_games(), game_id);
                    assert(0 <= im < games_mid.spec_games().len() && games_mid.spec_games()[
                        im].spec_id() == game_id);
                    if im != i0 {
                        assert(games_mid.spec_games()[im].spec_id() != games_mid.spec_games()[
                            i0].spec_id());
                    }
                    assert(crate::game_service::game_of(games_mid.spec_games(), game_id) == g1v);
                    let g2v = games.spec_games()[i0];
                    assert(games.spec_games() =~= old(games).spec_games().update(i0, g2v));
                    let i2 = crate::game_service::game_index_of(games.spec_games(), game_id);
                    assert(0 <= i2 < games.spec_games().len() && games.spec_games()[
                        i2].spec_id() == game_id);
                    if i2 != i0 {
                        assert(games.spec_games()[i2].spec_id() != games.spec_games()[
                            i0].spec_id());
                    }
                    assert(crate::game_service::game_of(games.spec_games(), game_id) == g2v);
                    assert(crate::game::queue_index_of(g1v.spec_queue(), cid)
                        == crate::game::queue_index_of(g0.spec_queue(), cid));
                    assert(crate::game::queue_player(g1v.spec_queue(), cid)
                        == crate::game::queue_player(g0.spec_queue(), cid));
                    assert(queue_ids(g2v.spec_queue()) =~= queue_ids(g1v.spec_queue()));
                    assert(crate::game_service::placetile_broadcast(outbox@.last(), g2v));
                    assert(outbox@ == old(outbox)@.push(outbox@.last()));
                }
                Ok(ResponseData::Cancel(CancelResponse { success: true, cards: Some(cards) }))
            },
            Err(e) => Err(e),
        }
    }
}

/// Withdraws the caller from their game.
#[derive(Debug, Clone, Copy, PartialEq, Eq, Structural)]
pub struct ExitController {}

impl ExitController {
    pub fn new() -> (c: ExitController)
        ensures
            c == (ExitController {  }),
    {
        ExitController {  }
    }

    /// Leaving the game shrinks the rotation; an emptied game is torn
    /// down.
    pub fn handle_request(
        &self,
        req: &Request,
        context: RequestContext,
        players: &mut PlayerService,
        games: &mut GameService,
        outbox: &mut Vec<Broadcast>,
    ) -> (r: Result<ResponseData, GameError>)
        requires
            req.spec_data() is Exit,
            old(players).wf(),
            old(games).wf(),
        ensures
            final(players).wf(),
            final(games).wf(),
            r is Ok <==> (old(players).has(context.client_id) && old(players).player_of(
                context.client_id,
            ).game is Some),
            match r {
                Ok(rd) => rd matches ResponseData::Exit(er) && {
                    &&& er.success <==> in_game(*old(players), *old(games), context.client_id)
                    &&& (er.success ==> crate::game_service::left_game(
                        *old(players),
                        *final(players),
                        *old(games),
                        *final(games),
                        old(outbox)@,
                        final(outbox)@,
                        context.client_id,
                    ))
                    &&& (!er.success ==> final(games).spec_games() == old(games).spec_games()
                        && final(players).players() == old(players).players() && final(outbox)@
                        == old(outbox)@)
                },
                Err(e) => {
                    &&& (e == GameError::PlayerNotFound || e == GameError::PlayerNotInGame)
                    &&& (e == GameError::PlayerNotFound <==> !old(players).has(context.client_id))
                    &&& (e == GameError::PlayerNotInGame <==> (old(players).has(context.client_id)
                        && old(players).player_of(context.client_id).game is None))
                    &&& final(games).spec_games() == old(games).spec_games()
                    &&& final(players).players() == old(players).players()
                    &&& final(outbox)@ == old(outbox)@
                },
            },
    {
        let p = match players.get_player(context.client_id) {
            Some(p) => p,
            None => {
                return Err(GameError::PlayerNotFound);
            },
        };
        proof {
            let iw = choose|i: int|
                0 <= i < old(players).players().len() && (#[trigger] old(players).players()[
                    i]).id == context.client_id && p.name@ == old(players).players()[i].name@
                    && p.lobby == old(players).players()[i].lobby && p.game == old(players).players()[i].game;
            old(players).lemma_player_of_index(iw, context.client_id);
        }
        if p.game.is_none() {
            return Err(GameError::PlayerNotInGame);
        }
        match games.remove_player_from_game(players, context.client_id, outbox) {
            Ok(()) => Ok(ResponseData::Exit(ExitResponse { success: true })),
            Err(_) => Ok(ResponseData::Exit(ExitResponse { success: false })),
        }
    }
}


/// Whether the request is owed success: the one condition, per
/// operation, under which its handler answers without a domain error.
pub open spec fn request_allowed(
    data: RequestData,
    players: PlayerService,
    lobbies: LobbyService,
    games: GameService,
    cid: u32,
) -> bool {
    match data {
        RequestData::Connect(_) => !players.has(cid),
        RequestData::Disconnect => players.has(cid),
        RequestData::Heartbeat => players.has(cid),
        RequestData::CreateLobby(cr) => players.has(cid) && 4 <= cr.max_players <= 8,
        RequestData::JoinLobby(jr) => join_allowed(players, lobbies, cid, jr.lobby_id),
        RequestData::QuitLobby => in_lobby(players, lobbies, cid),
        RequestData::ListLobby => true,
        RequestData::Ready => in_lobby(players, lobbies, cid),
        RequestData::StartGame => start_allowed(players, lobbies, cid),
        RequestData::SetTile(sr) => set_tile_allowed(players, games, cid, sr.x, sr.y, sr.card_index),
        RequestData::FinishTurn => holds_turn(players, games, cid),
        RequestData::GetNewCard => holds_turn(players, games, cid) && !crate::game::queue_player(
            crate::game_service::game_of(
                games.spec_games(),
                players.player_of(cid).game->Some_0,
            ).spec_queue(),
            cid,
        ).has_shuffled,
        RequestData::Cancel(cr) => cancel_allowed(players, games, cid, cr.x, cr.y),
        RequestData::Exit => players.has(cid) && players.player_of(cid).game is Some,
    }
}

/// The response variant answers the request's operation (or reports an
/// error).
pub open spec fn response_matches_op(rd: ResponseData, op: Operation) -> bool {
    rd is Error || match op {
        Operation::Connect => rd is Connect,
        Operation::Disconnect => rd is Disconnect,
        Operation::Heartbeat => rd is Heartbeat,
        Operation::CreateLobby => rd is CreateLobby,
        Operation::JoinLobby => rd is JoinLobby,
        Operation::QuitLobby => rd is QuitLobby,
        Operation::ListLobby => rd is ListLobby,
        Operation::Ready => rd is Ready,
        Operation::StartGame => rd is StartGame,
        Operation::SetTile => rd is SetTile,
        Operation::FinishTurn => rd is FinishTurn,
        Operation::GetNewCard => rd is GetNewCard,
        Operation::Cancel => rd is Cancel,
        Operation::Exit => rd is Exit,
    }
}

/// The registration table from operation tag to handler. Dispatch runs
/// the registered handler and never lets a domain error escape as a
/// connection failure: it becomes an `Error` response. Only a missing
/// registration is fatal.
#[derive(Debug)]
pub struct Router {
    registered: Vec<Operation>,
}

impl Router {
    pub closed spec fn spec_registered(&self) -> Seq<Operation> {
        self.registered@
    }

    /// The operation has a handler registered.
    pub open spec fn is_registered(&self, op: Operation) -> bool {
        self.spec_registered().contains(op)
    }

    pub fn new() -> (r: Router)
        ensures
            r.spec_registered().len() == 0,
    {
        Router { registered: Vec::new() }
    }

    /// Registers the handler for an operation.
    pub fn register_controller(&mut self, operation: Operation)
        ensures
            final(self).spec_registered() == old(self).spec_registered().push(operation),
            final(self).is_registered(operation),
    {
        self.registered.push(operation);
        proof {
            assert(self.registered@.last() == operation);
        }
    }

    /// Whether a handler is registered for the operation.
    pub fn has_controller(&self, op: Operation) -> (b: bool)
        ensures
            b == self.is_registered(op),
    {
        let n = self.registered.len();
        let mut i: usize = 0;
        while i < n
            invariant
                n == self.registered@.len(),
                i <= n,
                forall|j: int| 0 <= j < i ==> self.registered@[j] != op,
            decreases n - i,
        {
            if self.registered[i] == op {
                return true;
            }
            i = i + 1;
        }
        false
    }

    /// Routes one request to its handler. An unregistered operation is
    /// the one fatal routing error; a handler's domain error comes back
    /// as an `Error` response carrying its message, so the client can
    /// recover.
    pub fn route(
        &self,
        req: &Request,
        context: RequestContext,
        players: &mut PlayerService,
        lobbies: &mut LobbyService,
        games: &mut GameService,
        now: u64,
        outbox: &mut Vec<Broadcast>,
    ) -> (r: Result<ResponseData, RouterError>)
        requires
            old(players).wf(),
            old(lobbies).wf(),
            old(games).wf(),
            old(lobbies).spec_next_id() < u32::MAX,
            old(games).spec_next_id() < u32::MAX,
        ensures
            final(players).wf(),
            final(lobbies).wf(),
            final(games).wf(),
            self.is_registered(spec_op_of_request(req.spec_data())) <==> r is Ok,
            r matches Err(e) ==> e == RouterError::NoController && final(players).players()
                == old(players).players() && final(lobbies).spec_lobbies() == old(lobbies).spec_lobbies() && final(games).spec_games() == old(games).spec_games()
                && final(outbox)@ == old(outbox)@,
            r matches Ok(rd) ==> {
                &&& (rd is Error <==> !request_allowed(
                    req.spec_data(),
                    *old(players),
                    *old(lobbies),
                    *old(games),
                    context.client_id,
                ))
                &&& (rd is Error ==> final(players).players() == old(players).players() && final(lobbies).spec_lobbies() == old(lobbies).spec_lobbies() && final(games).spec_games() == old(games).spec_games() && final(outbox)@ == old(outbox)@)
                &&& response_matches_op(rd, spec_op_of_request(req.spec_data()))
                &&& (rd matches ResponseData::Error(er) ==> exists|e: GameError|
                    er.message@ == #[trigger] e.spec_message())
            },
    {
        let op = Operation::of_request(req.get_data());
        if !self.has_controller(op) {
            return Err(RouterError::NoController);
        }
        let outcome: Result<ResponseData, GameError> = match req.get_data() {
            RequestData::Connect(_) => ConnectController::new().handle_request(
                req,
                context,
                players,
                now,
            ),
            RequestData::Disconnect => DisconnectController::new().handle_request(
                req,
                context,
                players,
                lobbies,
                games,
                outbox,
            ),
            RequestData::Heartbeat => HeartbeatController::new().handle_request(
                req,
                context,
                players,
                now,
            ),
            RequestData::CreateLobby(_) => CreateController::new().handle_request(
                req,
                context,
                players,
                lobbies,
            ),
            RequestData::JoinLobby(_) => JoinController::new().handle_request(
                req,
                context,
                players,
                lobbies,
                outbox,
            ),
            RequestData::QuitLobby => QuitController::new().handle_request(
                req,
                context,
                players,
                lobbies,
                outbox,
            ),
            RequestData::ListLobby => ListController::new().handle_request(req, lobbies),
            RequestData::Ready => ReadyController::new().handle_request(
                req,
                context,
                players,
                lobbies,
            ),
            RequestData::StartGame => StartController::new().handle_request(
                req,
                context,
                players,
                lobbies,
                games,
                outbox,
            ),
            RequestData::SetTile(_) => SetTileController::new().handle_request(
                req,
                context,
                players,
                games,
                outbox,
            ),
            RequestData::FinishTurn => FinishTurnController::new().handle_request(
                req,
                context,
                players,
                games,
                outbox,
            ),
            RequestData::GetNewCard => GetNewCardController::new().handle_request(
                req,
                context,
                players,
                games,
                outbox,
            ),
            RequestData::Cancel(_) => CancelController::new().handle_request(
                req,
                context,
                players,
                games,
                outbox,
            ),
            RequestData::Exit => ExitController::new().handle_request(
                req,
                context,
                players,
                games,
                outbox,
            ),
        };
        match outcome {
            Ok(rd) => Ok(rd),
            Err(e) => Ok(ResponseData::Error(ErrorResponse { message: e.message() })),
        }
    }
}

} // verus!
