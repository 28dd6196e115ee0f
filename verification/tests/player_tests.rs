use wordboard::game_service::GameService;
use wordboard::lobby::LobbyService;
use wordboard::messages::Broadcast;
use wordboard::player::{Player, PlayerService};
use wordboard::words::WordSet;

#[test]
fn add_player_with_test_user_online_player_map_should_include_test_user() {
    let mut service = PlayerService::new();
    service.add_player(0, String::from("test"), 0);
    assert!(service.get_player(0).is_some());
}

#[test]
fn get_players_with_a_player_in_online_player_map_should_return_a_vec_with_that_player() {
    let mut service = PlayerService::new();
    service.add_player(0, String::from("test"), 0);
    assert_eq!(service.get_players().len(), 1);
}

#[test]
fn remove_player_with_a_player_in_lobby_should_remove_player_from_lobby() {
    let mut players = PlayerService::new();
    let mut lobbies = LobbyService::new();
    let mut games = GameService::new(WordSet::new(Vec::new()));
    let mut outbox: Vec<Broadcast> = Vec::new();
    players.add_player(0, String::from("test"), 0);
    let lobby_id = lobbies.create_lobby(&mut players, 0, 4).unwrap();
    PlayerService::remove_player(&mut players, &mut lobbies, &mut games, 0, &mut outbox).unwrap();
    assert!(lobbies.get_lobby(lobby_id).is_none());
    assert!(players.get_player(0).is_none());
}

#[test]
fn remove_player_with_a_player_in_game_should_remove_player_from_game() {
    let mut players = PlayerService::new();
    let mut lobbies = LobbyService::new();
    let mut games = GameService::new(WordSet::new(Vec::new()));
    let mut outbox: Vec<Broadcast> = Vec::new();
    players.add_player(0, String::from("test"), 0);
    let lobby_id = lobbies.create_lobby(&mut players, 0, 4).unwrap();
    lobbies.toggle_ready(lobby_id, 0).unwrap();
    let lobby = lobbies.get_lobby(lobby_id).unwrap().clone();
    let out = games
        .start_game(&mut players, &lobby, 0, &mut outbox)
        .unwrap();
    PlayerService::remove_player(&mut players, &mut lobbies, &mut games, 0, &mut outbox).unwrap();
    assert!(games.get_game(out.game_id).is_none());
    assert!(players.get_player(0).is_none());
}

#[test]
fn remove_player_with_a_player_not_existing_should_return_error() {
    let mut players = PlayerService::new();
    let mut lobbies = LobbyService::new();
    let mut games = GameService::new(WordSet::new(Vec::new()));
    let mut outbox: Vec<Broadcast> = Vec::new();
    assert!(
        PlayerService::remove_player(&mut players, &mut lobbies, &mut games, 0, &mut outbox)
            .is_err()
    );
}

#[test]
fn player_new_starts_with_no_lobby_and_no_game() {
    let p = Player::new(3, String::from("test"));
    assert_eq!(p.id, 3);
    assert_eq!(p.name, "test");
    assert!(p.get_lobby().is_none());
    assert!(p.get_game().is_none());
}

#[test]
fn heartbeat_refreshes_and_fails_for_unknown_players() {
    let mut service = PlayerService::new();
    service.add_player(0, String::from("test"), 100);
    assert!(service.heartbeat(0, 200).is_ok());
    assert!(service.heartbeat(1, 200).is_err());
}

// The idle sweep names exactly the sessions whose last heartbeat lies
// further back than the threshold.
#[test]
fn idle_players_names_the_stale_sessions() {
    let mut service = PlayerService::new();
    service.add_player(0, String::from("old"), 100);
    service.add_player(1, String::from("fresh"), 100);
    service.heartbeat(1, 10_000).unwrap();
    let idle = service.idle_players(40_000, 30_000);
    assert_eq!(idle, vec![0]);
    let idle_none = service.idle_players(12_000, 30_000);
    assert!(idle_none.is_empty());
}
