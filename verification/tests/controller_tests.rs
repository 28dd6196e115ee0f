use wordboard::board::Tile;
use wordboard::frame::{Operation, Request};
use wordboard::router::Router;
use wordboard::game_service::GameService;
use wordboard::lobby::LobbyService;
use wordboard::messages::{
    Broadcast, CancelRequest, ConnectRequest, CreateRequest, GameError, JoinRequest, LobbyEvent,
    RequestData, ResponseData, SetTileRequest,
};
use wordboard::player::PlayerService;
use wordboard::router::{
    CancelController, ConnectController, CreateController, DisconnectController, ExitController,
    FinishTurnController, GetNewCardController, JoinController, ReadyController, RequestContext,
    SetTileController, StartController,
};
use wordboard::words::WordSet;

struct World {
    players: PlayerService,
    lobbies: LobbyService,
    games: GameService,
    outbox: Vec<Broadcast>,
}

impl World {
    fn new(words: &[&str]) -> World {
        World {
            players: PlayerService::new(),
            lobbies: LobbyService::new(),
            games: GameService::new(WordSet::new(words.iter().map(|w| w.to_string()).collect())),
            outbox: Vec::new(),
        }
    }

    fn connect(&mut self, id: u32, name: &str) {
        let req = Request::new(0, RequestData::Connect(ConnectRequest { name: name.to_string() }));
        ConnectController::new()
            .handle_request(&req, RequestContext { client_id: id }, &mut self.players, 0)
            .unwrap();
    }

    fn create_lobby(&mut self, id: u32, max_players: u32) -> Result<ResponseData, GameError> {
        let req = Request::new(0, RequestData::CreateLobby(CreateRequest { max_players }));
        CreateController::new().handle_request(
            &req,
            RequestContext { client_id: id },
            &mut self.players,
            &mut self.lobbies,
        )
    }

    fn ready(&mut self, id: u32) -> Result<ResponseData, GameError> {
        let req = Request::new(0, RequestData::Ready);
        ReadyController::new().handle_request(
            &req,
            RequestContext { client_id: id },
            &mut self.players,
            &mut self.lobbies,
        )
    }

    fn start(&mut self, id: u32) -> Result<ResponseData, GameError> {
        let req = Request::new(0, RequestData::StartGame);
        StartController::new().handle_request(
            &req,
            RequestContext { client_id: id },
            &mut self.players,
            &mut self.lobbies,
            &mut self.games,
            &mut self.outbox,
        )
    }

    fn set_tile(&mut self, id: u32, x: u32, y: u32, card_index: u32) -> Result<ResponseData, GameError> {
        let req = Request::new(0, RequestData::SetTile(SetTileRequest { x, y, card_index }));
        SetTileController::new().handle_request(
            &req,
            RequestContext { client_id: id },
            &mut self.players,
            &mut self.games,
            &mut self.outbox,
        )
    }

    fn cancel(&mut self, id: u32, x: u32, y: u32) -> Result<ResponseData, GameError> {
        let req = Request::new(0, RequestData::Cancel(CancelRequest { x, y }));
        CancelController::new().handle_request(
            &req,
            RequestContext { client_id: id },
            &mut self.players,
            &mut self.games,
            &mut self.outbox,
        )
    }

    fn game_id_of(&self, id: u32) -> u32 {
        self.players.get_player(id).unwrap().game.unwrap()
    }

    fn started_world(words: &[&str]) -> World {
        let mut w = World::new(words);
        w.connect(0, "test");
        w.create_lobby(0, 4).unwrap();
        w.ready(0).unwrap();
        w.start(0).unwrap();
        w
    }
}

// --------------------------- connect -----------------------------------

#[test]
fn handle_request_with_test_user_should_create_test_user() {
    let mut w = World::new(&[]);
    w.connect(0, "test");
    let p = w.players.get_player(0).unwrap();
    assert_eq!(p.id, 0);
    assert_eq!(p.name, "test");
}

#[test]
fn handle_request_with_test_user_who_already_connected_should_return_error() {
    let mut w = World::new(&[]);
    w.connect(0, "test");
    let req = Request::new(0, RequestData::Connect(ConnectRequest { name: "test".to_string() }));
    let r = ConnectController::new().handle_request(
        &req,
        RequestContext { client_id: 0 },
        &mut w.players,
        0,
    );
    assert!(r.is_err());
}

// -------------------------- disconnect ---------------------------------

#[test]
fn handle_request_with_user_already_connected_should_be_removed() {
    let mut w = World::new(&[]);
    w.connect(0, "test");
    let req = Request::new(0, RequestData::Disconnect);
    DisconnectController::new()
        .handle_request(
            &req,
            RequestContext { client_id: 0 },
            &mut w.players,
            &mut w.lobbies,
            &mut w.games,
            &mut w.outbox,
        )
        .unwrap();
    assert!(w.players.get_player(0).is_none());
}

#[test]
fn handle_request_with_user_not_exist_should_return_error() {
    let mut w = World::new(&[]);
    let req = Request::new(0, RequestData::Disconnect);
    let r = DisconnectController::new().handle_request(
        &req,
        RequestContext { client_id: 0 },
        &mut w.players,
        &mut w.lobbies,
        &mut w.games,
        &mut w.outbox,
    );
    assert!(r.is_err());
}

// ---------------------------- create -----------------------------------

#[test]
fn handle_request_with_test_user_should_create_lobby() {
    let mut w = World::new(&[]);
    w.connect(0, "test");
    match w.create_lobby(0, 4).unwrap() {
        ResponseData::CreateLobby(res) => {
            assert!(res.success);
            assert_eq!(res.lobby.unwrap().id, 0);
        }
        other => panic!("invalid response: {:?}", other),
    }
}

#[test]
fn handle_request_with_test_user_and_invaild_max_players_should_return_error() {
    let mut w = World::new(&[]);
    w.connect(0, "test");
    assert!(w.create_lobby(0, 3).is_err());
    assert!(w.create_lobby(0, 9).is_err());
}

#[test]
fn handle_request_with_not_exist_user_should_return_error() {
    let mut w = World::new(&[]);
    assert!(w.create_lobby(0, 4).is_err());
}

#[test]
fn handle_request_with_test_user_should_contains_test_user() {
    let mut w = World::new(&[]);
    w.connect(0, "test");
    match w.create_lobby(0, 4).unwrap() {
        ResponseData::CreateLobby(res) => {
            let lobby = res.lobby.unwrap();
            assert_eq!(lobby.players[0].id, 0);
            assert_eq!(lobby.players[0].name, "test");
        }
        other => panic!("invalid response: {:?}", other),
    }
}

// ----------------------------- join ------------------------------------

#[test]
fn handle_request_with_test_user_should_join_lobby() {
    let mut w = World::new(&[]);
    w.connect(0, "test1");
    w.connect(1, "test2");
    w.create_lobby(0, 4).unwrap();
    let req = Request::new(0, RequestData::JoinLobby(JoinRequest { lobby_id: 0 }));
    match JoinController::new()
        .handle_request(
            &req,
            RequestContext { client_id: 1 },
            &mut w.players,
            &mut w.lobbies,
            &mut w.outbox,
        )
        .unwrap()
    {
        ResponseData::JoinLobby(res) => {
            assert!(res.success);
            let lobby = res.lobby.unwrap();
            assert_eq!(lobby.id, 0);
            assert_eq!(lobby.players.len(), 2);
        }
        other => panic!("invalid response: {:?}", other),
    }
}

#[test]
fn handle_request_with_not_exist_user_and_test_lobby_should_return_error() {
    let mut w = World::new(&[]);
    w.connect(0, "test1");
    w.create_lobby(0, 4).unwrap();
    let req = Request::new(0, RequestData::JoinLobby(JoinRequest { lobby_id: 0 }));
    assert!(JoinController::new()
        .handle_request(
            &req,
            RequestContext { client_id: 1 },
            &mut w.players,
            &mut w.lobbies,
            &mut w.outbox,
        )
        .is_err());
}

#[test]
fn handle_request_with_test_user_and_not_exist_lobby_should_return_error() {
    let mut w = World::new(&[]);
    w.connect(0, "test");
    let req = Request::new(0, RequestData::JoinLobby(JoinRequest { lobby_id: 0 }));
    assert!(JoinController::new()
        .handle_request(
            &req,
            RequestContext { client_id: 0 },
            &mut w.players,
            &mut w.lobbies,
            &mut w.outbox,
        )
        .is_err());
}

#[test]
fn handle_request_with_not_exist_user_and_not_exist_lobby_should_return_error() {
    let mut w = World::new(&[]);
    let req = Request::new(0, RequestData::JoinLobby(JoinRequest { lobby_id: 0 }));
    assert!(JoinController::new()
        .handle_request(
            &req,
            RequestContext { client_id: 0 },
            &mut w.players,
            &mut w.lobbies,
            &mut w.outbox,
        )
        .is_err());
}

// ----------------------------- ready -----------------------------------

#[test]
fn handle_request_with_test_user_in_test_lobby_should_ready() {
    let mut w = World::new(&[]);
    w.connect(0, "test");
    w.create_lobby(0, 4).unwrap();
    w.ready(0).unwrap();
    assert!(w.lobbies.get_lobby(0).unwrap().get_player(0).unwrap().get_ready());
}

#[test]
fn handle_request_with_test_user_in_test_lobby_should_not_ready() {
    let mut w = World::new(&[]);
    w.connect(0, "test");
    w.create_lobby(0, 4).unwrap();
    w.ready(0).unwrap();
    w.ready(0).unwrap();
    assert!(!w.lobbies.get_lobby(0).unwrap().get_player(0).unwrap().get_ready());
}

// ----------------------------- start -----------------------------------

#[test]
fn handle_request_with_test_user_in_test_lobby_should_start_game() {
    let mut w = World::new(&[]);
    w.connect(0, "test");
    w.create_lobby(0, 4).unwrap();
    w.ready(0).unwrap();
    match w.start(0).unwrap() {
        ResponseData::StartGame(res) => assert!(res.success),
        other => panic!("invalid response: {:?}", other),
    }
}

// ---------------------------- set tile ---------------------------------

#[test]
fn handle_request_with_test_user_in_his_turn_should_set_tile() {
    let mut w = World::started_world(&[]);
    let gid = w.game_id_of(0);
    w.set_tile(0, 1, 1, 1).unwrap();
    assert!(w.games.get_game(gid).unwrap().get_board().get(1, 1).is_some());
}

#[test]
fn set_tile_handle_request_with_test_user_is_not_his_round_should_return_error() {
    let mut w = World::new(&[]);
    w.connect(0, "test");
    w.connect(1, "test1");
    w.create_lobby(0, 4).unwrap();
    let req = Request::new(0, RequestData::JoinLobby(JoinRequest { lobby_id: 0 }));
    JoinController::new()
        .handle_request(
            &req,
            RequestContext { client_id: 1 },
            &mut w.players,
            &mut w.lobbies,
            &mut w.outbox,
        )
        .unwrap();
    w.ready(0).unwrap();
    w.ready(1).unwrap();
    w.start(0).unwrap();
    let gid = w.game_id_of(0);
    let holder = w
        .games
        .get_game(gid)
        .unwrap()
        .get_player_in_this_turn()
        .player_id;
    let other = if holder == 0 { 1 } else { 0 };
    assert!(matches!(w.set_tile(other, 1, 1, 1), Err(GameError::NotYourTurn)));
}

#[test]
fn handle_request_with_test_user_set_tile_out_of_board_should_return_error() {
    let mut w = World::started_world(&[]);
    assert!(matches!(w.set_tile(0, 27, 1, 1), Err(GameError::TileOutOfBoard)));
}

// --------------------------- finish turn --------------------------------

#[test]
fn player_in_his_turn_finish_turn_should_success() {
    let mut w = World::started_world(&[]);
    let req = Request::new(0, RequestData::FinishTurn);
    let r = FinishTurnController::new()
        .handle_request(
            &req,
            RequestContext { client_id: 0 },
            &mut w.players,
            &mut w.games,
            &mut w.outbox,
        )
        .unwrap();
    match r {
        ResponseData::FinishTurn(fr) => assert!(fr.success),
        other => panic!("invalid response: {:?}", other),
    }
}

#[test]
fn player_not_in_his_turn_finish_turn_should_fail() {
    let mut w = World::new(&[]);
    w.connect(0, "test");
    w.connect(1, "test1");
    w.create_lobby(0, 4).unwrap();
    let req = Request::new(0, RequestData::JoinLobby(JoinRequest { lobby_id: 0 }));
    JoinController::new()
        .handle_request(
            &req,
            RequestContext { client_id: 1 },
            &mut w.players,
            &mut w.lobbies,
            &mut w.outbox,
        )
        .unwrap();
    w.ready(0).unwrap();
    w.ready(1).unwrap();
    w.start(0).unwrap();
    let gid = w.game_id_of(0);
    let holder = w
        .games
        .get_game(gid)
        .unwrap()
        .get_player_in_this_turn()
        .player_id;
    let other = if holder == 0 { 1 } else { 0 };
    let freq = Request::new(0, RequestData::FinishTurn);
    assert!(FinishTurnController::new()
        .handle_request(
            &freq,
            RequestContext { client_id: other },
            &mut w.players,
            &mut w.games,
            &mut w.outbox,
        )
        .is_err());
}

// --------------------------- get new card -------------------------------

#[test]
fn handle_request_with_test_user_is_his_round_should_get_new_card() {
    let mut w = World::started_world(&[]);
    let req = Request::new(0, RequestData::GetNewCard);
    match GetNewCardController::new()
        .handle_request(
            &req,
            RequestContext { client_id: 0 },
            &mut w.players,
            &mut w.games,
            &mut w.outbox,
        )
        .unwrap()
    {
        ResponseData::GetNewCard(res) => {
            assert!(res.success);
            assert_eq!(res.cards.unwrap().len(), 8);
        }
        other => panic!("wrong response type: {:?}", other),
    }
}

#[test]
fn get_new_card_handle_request_with_test_user_is_not_his_round_should_return_error() {
    let mut w = World::new(&[]);
    w.connect(0, "test");
    w.connect(1, "test1");
    w.create_lobby(0, 4).unwrap();
    let req = Request::new(0, RequestData::JoinLobby(JoinRequest { lobby_id: 0 }));
    JoinController::new()
        .handle_request(
            &req,
            RequestContext { client_id: 1 },
            &mut w.players,
            &mut w.lobbies,
            &mut w.outbox,
        )
        .unwrap();
    w.ready(0).unwrap();
    w.ready(1).unwrap();
    w.start(0).unwrap();
    let gid = w.game_id_of(0);
    let holder = w
        .games
        .get_game(gid)
        .unwrap()
        .get_player_in_this_turn()
        .player_id;
    let other = if holder == 0 { 1 } else { 0 };
    let greq = Request::new(0, RequestData::GetNewCard);
    assert!(GetNewCardController::new()
        .handle_request(
            &greq,
            RequestContext { client_id: other },
            &mut w.players,
            &mut w.games,
            &mut w.outbox,
        )
        .is_err());
}

#[test]
fn handle_request_with_test_user_has_shuffled_shuffles_again_should_return_error() {
    let mut w = World::started_world(&[]);
    let req = Request::new(0, RequestData::GetNewCard);
    GetNewCardController::new()
        .handle_request(
            &req,
            RequestContext { client_id: 0 },
            &mut w.players,
            &mut w.games,
            &mut w.outbox,
        )
        .unwrap();
    let again = Request::new(0, RequestData::GetNewCard);
    assert!(GetNewCardController::new()
        .handle_request(
            &again,
            RequestContext { client_id: 0 },
            &mut w.players,
            &mut w.games,
            &mut w.outbox,
        )
        .is_err());
}

// ----------------------------- cancel -----------------------------------

#[test]
fn handle_request_with_test_card_not_place_in_this_turn_should_return_error() {
    let mut w = World::started_world(&[]);
    let gid = w.game_id_of(0);
    w.games
        .place_tile_on_board(gid, Tile::new('z', 0, 1), 1, 1, &mut w.outbox)
        .unwrap();
    w.games.set_game_turn(gid, 2).unwrap();
    assert!(w.cancel(0, 1, 1).is_err());
}

#[test]
fn handle_request_with_cancel_card_in_wrong_turn_should_return_err() {
    let mut w = World::started_world(&[]);
    let gid = w.game_id_of(0);
    let first_char = {
        let game = w.games.get_game(gid).unwrap();
        game.get_player_in_this_turn().get_cards()[0].ch
    };
    let turn = w.games.get_game(gid).unwrap().get_turns();
    w.games
        .place_tile_on_board(gid, Tile::new(first_char, 0, turn), 1, 1, &mut w.outbox)
        .unwrap();
    w.games.set_game_turn(gid, turn + 1).unwrap();
    assert!(w.cancel(0, 1, 1).is_err());
}

#[test]
fn handle_request_with_cancel_card_should_return_to_cards() {
    let mut w = World::started_world(&[]);
    let gid = w.game_id_of(0);
    let first_char = {
        let game = w.games.get_game(gid).unwrap();
        game.get_player_in_this_turn().get_cards()[0].ch
    };
    w.games
        .place_tile_on_board(gid, Tile::new(first_char, 0, 1), 1, 1, &mut w.outbox)
        .unwrap();
    w.cancel(0, 1, 1).unwrap();
    let game = w.games.get_game(gid).unwrap();
    assert!(!game.get_player_in_this_turn().get_cards()[0].used);
}

// ------------------------------ exit ------------------------------------

#[test]
fn handle_request_with_test_player_in_game_exit_should_success() {
    let mut w = World::started_world(&[]);
    let req = Request::new(0, RequestData::Exit);
    match ExitController::new()
        .handle_request(
            &req,
            RequestContext { client_id: 0 },
            &mut w.players,
            &mut w.games,
            &mut w.outbox,
        )
        .unwrap()
    {
        ResponseData::Exit(res) => assert!(res.success),
        other => panic!("wrong response type: {:?}", other),
    }
}

#[test]
fn handle_request_with_test_player_not_in_game_exit_should_failed() {
    let mut w = World::new(&[]);
    w.connect(0, "test");
    w.create_lobby(0, 4).unwrap();
    w.ready(0).unwrap();
    let req = Request::new(0, RequestData::Exit);
    assert!(ExitController::new()
        .handle_request(
            &req,
            RequestContext { client_id: 0 },
            &mut w.players,
            &mut w.games,
            &mut w.outbox,
        )
        .is_err());
}

// ----------------------------- router -----------------------------------

// The router wraps a handler's domain error as an `Error` response
// carrying its message, and refuses an unregistered operation outright.
#[test]
fn route_wraps_domain_errors_and_refuses_unregistered_operations() {
    let mut w = World::new(&[]);
    let mut router = Router::new();
    router.register_controller(Operation::Heartbeat);
    let heartbeat = Request::new(0, RequestData::Heartbeat);
    let ready = Request::new(0, RequestData::Ready);
    assert!(router
        .route(
            &ready,
            RequestContext { client_id: 0 },
            &mut w.players,
            &mut w.lobbies,
            &mut w.games,
            0,
            &mut w.outbox,
        )
        .is_err());
    match router
        .route(
            &heartbeat,
            RequestContext { client_id: 0 },
            &mut w.players,
            &mut w.lobbies,
            &mut w.games,
            0,
            &mut w.outbox,
        )
        .unwrap()
    {
        ResponseData::Error(er) => assert_eq!(er.message, "Player not found"),
        other => panic!("expected an error response: {:?}", other),
    }
    w.connect(0, "test");
    match router
        .route(
            &heartbeat,
            RequestContext { client_id: 0 },
            &mut w.players,
            &mut w.lobbies,
            &mut w.games,
            7,
            &mut w.outbox,
        )
        .unwrap()
    {
        ResponseData::Heartbeat(h) => assert!(h.success),
        other => panic!("expected a heartbeat response: {:?}", other),
    }
}

#[test]
fn register_controller_with_controller_and_operation_controller_should_be_added() {
    let mut router = Router::new();
    router.register_controller(Operation::Connect);
    assert!(router.has_controller(Operation::Connect));
    assert!(!router.has_controller(Operation::Ready));
}

// ---------------------------- scenarios ---------------------------------

// Start gating, end to end: the leader cannot start before everyone is
// ready; once everyone is, the game begins at turn one with the first
// roster entry holding the turn.
#[test]
fn scenario_start_gating_and_first_turn_holder() {
    let mut w = World::new(&[]);
    w.connect(0, "p0");
    w.connect(1, "p1");
    w.create_lobby(0, 4).unwrap();
    let req = Request::new(0, RequestData::JoinLobby(JoinRequest { lobby_id: 0 }));
    JoinController::new()
        .handle_request(
            &req,
            RequestContext { client_id: 1 },
            &mut w.players,
            &mut w.lobbies,
            &mut w.outbox,
        )
        .unwrap();
    assert!(matches!(w.start(0), Err(GameError::NotAllPlayersReady)));
    w.ready(0).unwrap();
    assert!(matches!(w.start(0), Err(GameError::NotAllPlayersReady)));
    assert!(matches!(w.start(1), Err(GameError::OnlyLeaderCanStart)));
    w.ready(1).unwrap();
    w.start(0).unwrap();
    let gid = w.game_id_of(0);
    let game = w.games.get_game(gid).unwrap();
    assert_eq!(game.get_turns(), 1);
    assert_eq!(game.get_player_in_this_turn().player_id, 0);
}

// Placing "the", finishing the turn: the word is scored, the hand is
// replaced by a fresh one, and the turn passes to the next player.
#[test]
fn scenario_place_the_and_finish_scores_and_advances() {
    let mut w = World::new(&["the"]);
    w.connect(0, "p0");
    w.connect(1, "p1");
    w.create_lobby(0, 4).unwrap();
    let req = Request::new(0, RequestData::JoinLobby(JoinRequest { lobby_id: 0 }));
    JoinController::new()
        .handle_request(
            &req,
            RequestContext { client_id: 1 },
            &mut w.players,
            &mut w.lobbies,
            &mut w.outbox,
        )
        .unwrap();
    w.ready(0).unwrap();
    w.ready(1).unwrap();
    w.start(0).unwrap();
    let gid = w.game_id_of(0);
    let holder = w
        .games
        .get_game(gid)
        .unwrap()
        .get_player_in_this_turn()
        .player_id;
    for (i, ch) in ['t', 'h', 'e'].into_iter().enumerate() {
        w.games
            .place_tile_on_board(gid, Tile::new(ch, holder, 1), 0, i, &mut w.outbox)
            .unwrap();
    }
    let out = w
        .games
        .validate_board_and_finish_turn(&mut w.players, gid, &mut w.outbox)
        .unwrap();
    assert_eq!(out.words, vec!["the".to_string()]);
    let game = w.games.get_game(gid).unwrap();
    assert_eq!(game.get_turns(), 2);
    assert_ne!(game.get_player_in_this_turn().player_id, holder);
    let qi = game.find_player(holder).unwrap();
    let hand = game.player_at(qi).get_cards();
    assert_eq!(hand.len(), 8);
    assert!(hand.iter().all(|c| !c.used));
}

// Placing from the hand through the handlers, then finishing: the three
// placed hand cards spell a word of the dictionary of every three-vowel
// combination, so the finish accepts and scores it.
#[test]
fn scenario_place_from_hand_and_finish() {
    let vowels = ['a', 'e', 'i', 'o', 'u'];
    let mut all3: Vec<String> = Vec::new();
    for a in vowels {
        for b in vowels {
            for c in vowels {
                all3.push(format!("{}{}{}", a, b, c));
            }
        }
    }
    let words: Vec<&str> = all3.iter().map(|s| s.as_str()).collect();
    let mut w = World::new(&words);
    w.connect(0, "p0");
    w.create_lobby(0, 4).unwrap();
    w.ready(0).unwrap();
    w.start(0).unwrap();
    let gid = w.game_id_of(0);
    let expected: String = {
        let game = w.games.get_game(gid).unwrap();
        game.get_player_in_this_turn().get_cards()[..3]
            .iter()
            .map(|c| c.ch)
            .collect()
    };
    for i in 0..3u32 {
        w.set_tile(0, 0, i, i).unwrap();
    }
    let out = w
        .games
        .validate_board_and_finish_turn(&mut w.players, gid, &mut w.outbox)
        .unwrap();
    assert_eq!(out.words, vec![expected]);
}

// Cancelling a placement of the current turn: the cell empties and the
// hand card becomes unused again.
#[test]
fn scenario_cancel_restores_card_and_clears_cell() {
    let mut w = World::started_world(&[]);
    let gid = w.game_id_of(0);
    w.set_tile(0, 2, 3, 4).unwrap();
    {
        let game = w.games.get_game(gid).unwrap();
        assert!(game.get_board().get(2, 3).is_some());
        let qi = game.find_player(0).unwrap();
        assert!(game.player_at(qi).get_cards()[4].used);
    }
    w.cancel(0, 2, 3).unwrap();
    let game = w.games.get_game(gid).unwrap();
    assert!(game.get_board().get(2, 3).is_none());
    let qi = game.find_player(0).unwrap();
    assert!(!game.player_at(qi).get_cards()[4].used);
}

// Disconnecting the lobby leader destroys the lobby; the other members
// hear `Destroy`, not `Leave`.
#[test]
fn scenario_disconnecting_leader_destroys_lobby_with_destroy_broadcast() {
    let mut w = World::new(&[]);
    w.connect(0, "leader");
    w.connect(1, "member");
    w.create_lobby(0, 4).unwrap();
    let req = Request::new(0, RequestData::JoinLobby(JoinRequest { lobby_id: 0 }));
    JoinController::new()
        .handle_request(
            &req,
            RequestContext { client_id: 1 },
            &mut w.players,
            &mut w.lobbies,
            &mut w.outbox,
        )
        .unwrap();
    w.outbox.clear();
    let dreq = Request::new(0, RequestData::Disconnect);
    DisconnectController::new()
        .handle_request(
            &dreq,
            RequestContext { client_id: 0 },
            &mut w.players,
            &mut w.lobbies,
            &mut w.games,
            &mut w.outbox,
        )
        .unwrap();
    assert!(w.lobbies.get_lobby(0).is_none());
    assert_eq!(w.outbox.len(), 1);
    assert_eq!(w.outbox[0].targets, vec![1]);
    match &w.outbox[0].data {
        ResponseData::LobbyBroadcast(lb) => assert_eq!(lb.event, LobbyEvent::Destroy),
        other => panic!("unexpected broadcast: {:?}", other),
    }
}
