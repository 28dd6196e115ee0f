use wordboard::board::Tile;
use wordboard::game::END_GAME_TURN;
use wordboard::game_service::GameService;
use wordboard::lobby::{Lobby, LobbyService};
use wordboard::messages::{Broadcast, GameError};
use wordboard::player::PlayerService;
use wordboard::words::WordSet;

fn empty_dict() -> WordSet {
    WordSet::new(Vec::new())
}

fn dict(words: &[&str]) -> WordSet {
    WordSet::new(words.iter().map(|w| w.to_string()).collect())
}

fn players_with(ids: &[(u32, &str)]) -> PlayerService {
    let mut ps = PlayerService::new();
    for (id, name) in ids {
        ps.add_player(*id, name.to_string(), 0);
    }
    ps
}

fn ready_lobby(ps: &mut PlayerService, ls: &mut LobbyService, member_ids: &[u32]) -> Lobby {
    let mut outbox: Vec<Broadcast> = Vec::new();
    let id = ls.create_lobby(ps, member_ids[0], 4).unwrap();
    for pid in &member_ids[1..] {
        ls.add_player_to_lobby(ps, *pid, id, &mut outbox).unwrap();
    }
    for pid in member_ids {
        ls.toggle_ready(id, *pid).unwrap();
    }
    ls.get_lobby(id).unwrap().clone()
}

#[test]
fn start_game_with_test_player_in_test_lobby_should_start_game() {
    let mut gs = GameService::new(empty_dict());
    let mut ps = players_with(&[(0, "test")]);
    let mut ls = LobbyService::new();
    let lobby = ready_lobby(&mut ps, &mut ls, &[0]);
    let mut outbox: Vec<Broadcast> = Vec::new();
    assert!(gs.start_game(&mut ps, &lobby, 0, &mut outbox).is_ok());
}

#[test]
fn start_game_with_test_player_not_in_lobby_should_return_error() {
    let mut gs = GameService::new(empty_dict());
    let mut ps = players_with(&[(0, "test1"), (1, "test2")]);
    let mut ls = LobbyService::new();
    let mut outbox: Vec<Broadcast> = Vec::new();
    let id = ls.create_lobby(&mut ps, 0, 4).unwrap();
    let lobby = ls.get_lobby(id).unwrap().clone();
    assert!(gs.start_game(&mut ps, &lobby, 1, &mut outbox).is_err());
}

#[test]
fn start_game_with_not_leader_should_return_error() {
    let mut gs = GameService::new(empty_dict());
    let mut ps = players_with(&[(0, "test"), (1, "test2")]);
    let mut ls = LobbyService::new();
    let mut outbox: Vec<Broadcast> = Vec::new();
    let id = ls.create_lobby(&mut ps, 0, 4).unwrap();
    ls.add_player_to_lobby(&mut ps, 1, id, &mut outbox).unwrap();
    let lobby = ls.get_lobby(id).unwrap().clone();
    assert!(gs.start_game(&mut ps, &lobby, 1, &mut outbox).is_err());
}

#[test]
fn start_game_with_players_not_ready_should_return_error() {
    let mut gs = GameService::new(empty_dict());
    let mut ps = players_with(&[(0, "test")]);
    let mut ls = LobbyService::new();
    let mut outbox: Vec<Broadcast> = Vec::new();
    let id = ls.create_lobby(&mut ps, 0, 4).unwrap();
    let lobby = ls.get_lobby(id).unwrap().clone();
    assert!(gs.start_game(&mut ps, &lobby, 0, &mut outbox).is_err());
}

#[test]
fn validate_board_and_finish_turn_when_board_is_broken_should_return_error() {
    let mut gs = GameService::new(empty_dict());
    let mut ps = players_with(&[(0, "test1"), (1, "test2")]);
    let mut ls = LobbyService::new();
    let lobby = ready_lobby(&mut ps, &mut ls, &[0, 1]);
    let mut outbox: Vec<Broadcast> = Vec::new();
    let out = gs.start_game(&mut ps, &lobby, 0, &mut outbox).unwrap();
    gs.place_tile_on_board(out.game_id, Tile::new('a', 0, 1), 0, 0, &mut outbox)
        .unwrap();
    assert!(matches!(
        gs.validate_board_and_finish_turn(&mut ps, out.game_id, &mut outbox),
        Err(GameError::InvalidWord)
    ));
}

#[test]
fn validate_board_and_finish_turn_when_game_end_should_remove_game() {
    let mut gs = GameService::new(empty_dict());
    let mut ps = players_with(&[(0, "test1"), (1, "test2")]);
    let mut ls = LobbyService::new();
    let lobby = ready_lobby(&mut ps, &mut ls, &[0, 1]);
    let mut outbox: Vec<Broadcast> = Vec::new();
    let out = gs.start_game(&mut ps, &lobby, 0, &mut outbox).unwrap();
    // push the counter past the threshold, as an ended match would be
    gs.set_game_turn(out.game_id, END_GAME_TURN + 1).unwrap();
    gs.validate_board_and_finish_turn(&mut ps, out.game_id, &mut outbox)
        .unwrap();
    assert_eq!(gs.get_gamees().len(), 0);
}

#[test]
fn validate_board_and_finish_turn_when_game_not_end_should_not_remove_game() {
    let mut gs = GameService::new(empty_dict());
    let mut ps = players_with(&[(0, "test1"), (1, "test2")]);
    let mut ls = LobbyService::new();
    let lobby = ready_lobby(&mut ps, &mut ls, &[0, 1]);
    let mut outbox: Vec<Broadcast> = Vec::new();
    let out = gs.start_game(&mut ps, &lobby, 0, &mut outbox).unwrap();
    gs.validate_board_and_finish_turn(&mut ps, out.game_id, &mut outbox)
        .unwrap();
    assert_eq!(gs.get_gamees().len(), 1);
}

#[test]
fn validate_board_and_finish_turn_when_board_is_legal_should_success() {
    let mut gs = GameService::new(empty_dict());
    let mut ps = players_with(&[(0, "test1"), (1, "test2")]);
    let mut ls = LobbyService::new();
    let lobby = ready_lobby(&mut ps, &mut ls, &[0, 1]);
    let mut outbox: Vec<Broadcast> = Vec::new();
    let out = gs.start_game(&mut ps, &lobby, 0, &mut outbox).unwrap();
    assert!(gs
        .validate_board_and_finish_turn(&mut ps, out.game_id, &mut outbox)
        .is_ok());
}

#[test]
fn timeout_finish_turn_when_times_up_should_success() {
    let mut gs = GameService::new(empty_dict());
    let mut ps = players_with(&[(0, "test1"), (1, "test2")]);
    let mut ls = LobbyService::new();
    let lobby = ready_lobby(&mut ps, &mut ls, &[0, 1]);
    let mut outbox: Vec<Broadcast> = Vec::new();
    let out = gs.start_game(&mut ps, &lobby, 0, &mut outbox).unwrap();
    let turn_before = gs.get_game(out.game_id).unwrap().get_turns();
    let fired = gs
        .timeout_finish_turn(&mut ps, out.game_id, out.timer_token, &mut outbox)
        .unwrap();
    assert!(fired.is_some());
    assert_eq!(
        gs.get_game(out.game_id).unwrap().get_turns(),
        turn_before + 1
    );
}

// An invalid board at timeout is rolled back to the committed snapshot
// and the turn still advances: the player just loses the turn.
#[test]
fn timeout_finish_turn_rolls_an_invalid_board_back() {
    let mut gs = GameService::new(empty_dict());
    let mut ps = players_with(&[(0, "a"), (1, "b")]);
    let mut ls = LobbyService::new();
    let lobby = ready_lobby(&mut ps, &mut ls, &[0, 1]);
    let mut outbox: Vec<Broadcast> = Vec::new();
    let out = gs.start_game(&mut ps, &lobby, 0, &mut outbox).unwrap();
    gs.place_tile_on_board(out.game_id, Tile::new('z', 0, 1), 5, 5, &mut outbox)
        .unwrap();
    let fired = gs
        .timeout_finish_turn(&mut ps, out.game_id, out.timer_token, &mut outbox)
        .unwrap()
        .unwrap();
    assert_eq!(fired.words.len(), 0);
    assert!(gs
        .get_game(out.game_id)
        .unwrap()
        .get_board()
        .get(5, 5)
        .is_none());
}

// Exactly one of the explicit finish and the timeout fires: after the
// explicit finish, the stale token does nothing.
#[test]
fn race_between_finish_and_timeout_advances_exactly_once() {
    let mut gs = GameService::new(empty_dict());
    let mut ps = players_with(&[(0, "a"), (1, "b")]);
    let mut ls = LobbyService::new();
    let lobby = ready_lobby(&mut ps, &mut ls, &[0, 1]);
    let mut outbox: Vec<Broadcast> = Vec::new();
    let out = gs.start_game(&mut ps, &lobby, 0, &mut outbox).unwrap();
    gs.validate_board_and_finish_turn(&mut ps, out.game_id, &mut outbox)
        .unwrap();
    let after_finish = gs.get_game(out.game_id).unwrap().get_turns();
    let fired = gs
        .timeout_finish_turn(&mut ps, out.game_id, out.timer_token, &mut outbox)
        .unwrap();
    assert!(fired.is_none());
    assert_eq!(gs.get_game(out.game_id).unwrap().get_turns(), after_finish);
    assert_eq!(after_finish, 2);
}

// The other order: the timeout fires first, and the explicit finish of
// the displaced player is refused — the turn still advanced only once.
#[test]
fn race_where_timeout_wins_leaves_one_advance() {
    let mut gs = GameService::new(empty_dict());
    let mut ps = players_with(&[(0, "a"), (1, "b")]);
    let mut ls = LobbyService::new();
    let lobby = ready_lobby(&mut ps, &mut ls, &[0, 1]);
    let mut outbox: Vec<Broadcast> = Vec::new();
    let out = gs.start_game(&mut ps, &lobby, 0, &mut outbox).unwrap();
    let fired = gs
        .timeout_finish_turn(&mut ps, out.game_id, out.timer_token, &mut outbox)
        .unwrap();
    assert!(fired.is_some());
    // the stale token fires nothing a second time
    let again = gs
        .timeout_finish_turn(&mut ps, out.game_id, out.timer_token, &mut outbox)
        .unwrap();
    assert!(again.is_none());
    assert_eq!(gs.get_game(out.game_id).unwrap().get_turns(), 2);
}

// A second shuffle in the same turn fails and the hand keeps its cards.
#[test]
fn shuffle_twice_in_one_turn_fails_and_keeps_the_hand() {
    let mut gs = GameService::new(empty_dict());
    let mut ps = players_with(&[(0, "a")]);
    let mut ls = LobbyService::new();
    let lobby = ready_lobby(&mut ps, &mut ls, &[0]);
    let mut outbox: Vec<Broadcast> = Vec::new();
    let out = gs.start_game(&mut ps, &lobby, 0, &mut outbox).unwrap();
    let first = gs.shuffle(out.game_id, 0, &mut outbox).unwrap();
    let second = gs.shuffle(out.game_id, 0, &mut outbox);
    assert_eq!(second, Err(GameError::HasShuffled));
    let game = gs.get_game(out.game_id).unwrap();
    let qi = game.find_player(0).unwrap();
    let hand_after: Vec<char> = game.player_at(qi).get_cards().iter().map(|c| c.ch).collect();
    let first_chars: Vec<char> = first.iter().map(|c| c.ch).collect();
    assert_eq!(hand_after, first_chars);
}

#[test]
fn get_game_with_game_id_should_return_game() {
    let mut gs = GameService::new(empty_dict());
    let mut ps = players_with(&[(0, "test")]);
    let mut ls = LobbyService::new();
    let lobby = ready_lobby(&mut ps, &mut ls, &[0]);
    let mut outbox: Vec<Broadcast> = Vec::new();
    let out = gs.start_game(&mut ps, &lobby, 0, &mut outbox).unwrap();
    assert!(gs.get_game(out.game_id).is_some());
}

#[test]
fn remove_game_with_test_game_should_be_remove() {
    let mut gs = GameService::new(empty_dict());
    let mut ps = players_with(&[(0, "test")]);
    let mut ls = LobbyService::new();
    let lobby = ready_lobby(&mut ps, &mut ls, &[0]);
    let mut outbox: Vec<Broadcast> = Vec::new();
    let out = gs.start_game(&mut ps, &lobby, 0, &mut outbox).unwrap();
    gs.remove_game(&mut ps, out.game_id).unwrap();
    assert!(gs.get_gamees().is_empty());
}

#[test]
fn remove_game_with_test_player_and_with_test_game_test_player_game_should_be_none() {
    let mut gs = GameService::new(empty_dict());
    let mut ps = players_with(&[(0, "test")]);
    let mut ls = LobbyService::new();
    let lobby = ready_lobby(&mut ps, &mut ls, &[0]);
    let mut outbox: Vec<Broadcast> = Vec::new();
    let out = gs.start_game(&mut ps, &lobby, 0, &mut outbox).unwrap();
    gs.remove_game(&mut ps, out.game_id).unwrap();
    assert!(ps.get_player(0).unwrap().game.is_none());
}

#[test]
fn get_games_with_test_games_should_return_test_games() {
    let mut gs = GameService::new(empty_dict());
    let mut ps = players_with(&[(0, "a"), (1, "b")]);
    let mut ls = LobbyService::new();
    let mut outbox: Vec<Broadcast> = Vec::new();
    let lobby1 = ready_lobby(&mut ps, &mut ls, &[0]);
    let out1 = gs.start_game(&mut ps, &lobby1, 0, &mut outbox).unwrap();
    let lobby2 = ready_lobby(&mut ps, &mut ls, &[1]);
    let out2 = gs.start_game(&mut ps, &lobby2, 1, &mut outbox).unwrap();
    let games = gs.get_gamees();
    assert!(games.contains(&out1.game_id));
    assert!(games.contains(&out2.game_id));
    assert!(games.len() == 2);
}

#[test]
fn remove_player_from_game_with_test_player_should_remove_the_player() {
    let mut gs = GameService::new(empty_dict());
    let mut ps = players_with(&[(0, "test1"), (1, "test2")]);
    let mut ls = LobbyService::new();
    let lobby = ready_lobby(&mut ps, &mut ls, &[0, 1]);
    let mut outbox: Vec<Broadcast> = Vec::new();
    let out = gs.start_game(&mut ps, &lobby, 0, &mut outbox).unwrap();
    gs.remove_player_from_game(&mut ps, 0, &mut outbox).unwrap();
    assert!(gs.get_game(out.game_id).unwrap().find_player(0).is_none());
}

#[test]
fn remove_player_from_game_with_test_player_and_game_players_amount_equal_0_should_destroy_game() {
    let mut gs = GameService::new(empty_dict());
    let mut ps = players_with(&[(0, "test1")]);
    let mut ls = LobbyService::new();
    let lobby = ready_lobby(&mut ps, &mut ls, &[0]);
    let mut outbox: Vec<Broadcast> = Vec::new();
    gs.start_game(&mut ps, &lobby, 0, &mut outbox).unwrap();
    gs.remove_player_from_game(&mut ps, 0, &mut outbox).unwrap();
    assert!(gs.get_gamees().len() == 0);
}

#[test]
fn remove_player_from_game_with_test_player_should_return_test_user() {
    let mut gs = GameService::new(empty_dict());
    let mut ps = players_with(&[(0, "test1")]);
    let mut ls = LobbyService::new();
    let lobby = ready_lobby(&mut ps, &mut ls, &[0]);
    let mut outbox: Vec<Broadcast> = Vec::new();
    gs.start_game(&mut ps, &lobby, 0, &mut outbox).unwrap();
    assert!(gs.remove_player_from_game(&mut ps, 0, &mut outbox).is_ok());
    assert!(ps.get_player(0).unwrap().game.is_none());
}

#[test]
fn finish_turn_without_parameter_should_backup_board() {
    let mut gs = GameService::new(dict(&["a"]));
    let mut ps = players_with(&[(0, "test1")]);
    let mut ls = LobbyService::new();
    let lobby = ready_lobby(&mut ps, &mut ls, &[0]);
    let mut outbox: Vec<Broadcast> = Vec::new();
    let out = gs.start_game(&mut ps, &lobby, 0, &mut outbox).unwrap();
    gs.place_tile_on_board(out.game_id, Tile::new('a', 0, 1), 0, 0, &mut outbox)
        .unwrap();
    gs.validate_board_and_finish_turn(&mut ps, out.game_id, &mut outbox)
        .unwrap();
    assert!(gs
        .get_game(out.game_id)
        .unwrap()
        .get_board_backup()
        .get(0, 0)
        .is_some());
}

#[test]
fn create_game_with_test_player_should_create_game() {
    let mut gs = GameService::new(empty_dict());
    let mut ps = players_with(&[(0, "test")]);
    let mut ls = LobbyService::new();
    let lobby = ready_lobby(&mut ps, &mut ls, &[0]);
    let mut outbox: Vec<Broadcast> = Vec::new();
    let out = gs.start_game(&mut ps, &lobby, 0, &mut outbox).unwrap();
    assert!(gs.get_game(out.game_id).is_some());
}

#[test]
fn get_game_with_test_game_should_return_game() {
    let mut gs = GameService::new(empty_dict());
    let mut ps = players_with(&[(0, "test")]);
    let mut ls = LobbyService::new();
    let lobby = ready_lobby(&mut ps, &mut ls, &[0]);
    let mut outbox: Vec<Broadcast> = Vec::new();
    let out = gs.start_game(&mut ps, &lobby, 0, &mut outbox).unwrap();
    assert!(gs.get_game(out.game_id).is_some());
}

#[test]
fn get_game_with_not_exist_game_should_return_none() {
    let gs = GameService::new(empty_dict());
    assert!(gs.get_game(0).is_none());
}

#[test]
fn remove_game_with_test_game_should_remove_game() {
    let mut gs = GameService::new(empty_dict());
    let mut ps = players_with(&[(0, "test")]);
    let mut ls = LobbyService::new();
    let lobby = ready_lobby(&mut ps, &mut ls, &[0]);
    let mut outbox: Vec<Broadcast> = Vec::new();
    let out = gs.start_game(&mut ps, &lobby, 0, &mut outbox).unwrap();
    gs.remove_game(&mut ps, out.game_id).unwrap();
    assert_eq!(gs.get_gamees().len(), 0);
}

#[test]
fn remove_game_with_not_exist_game_should_return_none() {
    let mut gs = GameService::new(empty_dict());
    let mut ps = players_with(&[(0, "test")]);
    assert!(gs.remove_game(&mut ps, 0).is_err());
}
