use wordboard::lobby::{Lobby, LobbyPlayer, LobbyService};
use wordboard::messages::{Broadcast, GameError, LobbyEvent, ResponseData};
use wordboard::player::PlayerService;

fn players_with(ids: &[(u32, &str)]) -> PlayerService {
    let mut ps = PlayerService::new();
    for (id, name) in ids {
        ps.add_player(*id, name.to_string(), 0);
    }
    ps
}

#[test]
fn get_id_with_id_0_returns_0() {
    let lobby = Lobby::new(0, 4, 0);
    assert_eq!(lobby.get_id(), 0);
}

#[test]
fn get_max_players_with_max_players_4_returns_4() {
    let lobby = Lobby::new(0, 4, 0);
    assert_eq!(lobby.get_max_players(), 4);
}

#[test]
fn add_player_with_test_player_should_be_added() {
    let mut lobby = Lobby::new(0, 4, 0);
    let result = lobby.add_player(1);
    assert!(result.is_ok());
    assert!(lobby.get_player(0).is_some());
    assert!(lobby.get_player(1).is_some());
}

#[test]
fn add_player_with_test_player_already_in_lobby_should_return_error() {
    let mut lobby = Lobby::new(0, 4, 0);
    assert!(lobby.add_player(0).is_err());
}

#[test]
fn get_player_with_test_player_should_return_test_player() {
    let lobby = Lobby::new(0, 4, 0);
    let player = lobby.get_player(0).unwrap();
    assert_eq!(player.player_id, 0);
    assert!(!player.ready);
}

#[test]
fn get_player_with_not_exist_player_should_return_none() {
    let lobby = Lobby::new(0, 4, 0);
    assert!(lobby.get_player(1).is_none());
}

#[test]
fn get_players_with_three_players_should_return_players() {
    let mut lobby = Lobby::new(0, 4, 0);
    lobby.add_player(1).unwrap();
    lobby.add_player(2).unwrap();
    let roster = lobby.get_players();
    assert_eq!(roster.len(), 3);
    for (i, lp) in roster.iter().enumerate() {
        assert_eq!(lp.player_id, i as u32);
    }
}

#[test]
fn remove_player_with_test_player_should_remove_player() {
    let mut lobby = Lobby::new(0, 4, 0);
    lobby.remove_player(0).unwrap();
    assert_eq!(lobby.get_players().len(), 0);
}

#[test]
fn set_ready_should_set_ready() {
    let mut lobby_player = LobbyPlayer::new(0);
    lobby_player.set_ready(true);
    assert_eq!(lobby_player.get_ready(), true);
}

#[test]
fn get_ready_should_get_ready() {
    let mut lobby_player = LobbyPlayer::new(0);
    lobby_player.set_ready(true);
    assert_eq!(lobby_player.get_ready(), true);
}

#[test]
fn a_full_lobby_refuses_another_member() {
    let mut lobby = Lobby::new(0, 4, 0);
    lobby.add_player(1).unwrap();
    lobby.add_player(2).unwrap();
    lobby.add_player(3).unwrap();
    assert_eq!(lobby.add_player(4), Err(GameError::LobbyFull));
}

#[test]
fn from_lobby_with_lobby_return_lobby_info() {
    let lobby = Lobby::new(0, 4, 0);
    let info = lobby.to_lobby_info();
    assert_eq!(info.id, 0);
    assert_eq!(info.max_players, 4);
    assert_eq!(info.cur_players, 1);
}

#[test]
fn from_lobby_with_a_player_in_lobby_lobby_info_current_players_should_be_one() {
    let mut lobby = Lobby::new(0, 4, 0);
    // joining the pre-joined leader again is refused, so one remains
    let _ = lobby.add_player(0);
    assert_eq!(lobby.to_lobby_info().cur_players, 1);
}

#[test]
fn from_lobbies_with_lobbies_return_lobby_infos() {
    let service = LobbyService::new();
    assert_eq!(service.get_lobbies().len(), 0);
}

#[test]
fn from_lobbies_with_lobbies_has_one_lobby_return_lobby_infos() {
    let mut service = LobbyService::new();
    let mut ps = players_with(&[(0, "test")]);
    service.create_lobby(&mut ps, 0, 4).unwrap();
    assert_eq!(service.get_lobbies()[0].id, 0);
}

// ------------------------- lobby service -------------------------------

#[test]
fn create_lobby_with_test_user_should_create_lobby() {
    let mut service = LobbyService::new();
    let mut ps = players_with(&[(0, "test")]);
    service.create_lobby(&mut ps, 0, 4).unwrap();
    assert!(service.get_lobby(0).is_some());
}

#[test]
fn create_lobby_with_test_user_and_invaild_max_players_should_return_error() {
    let mut service = LobbyService::new();
    let mut ps = players_with(&[(0, "test")]);
    assert!(service.create_lobby(&mut ps, 0, 3).is_err());
    assert!(service.create_lobby(&mut ps, 0, 9).is_err());
}

#[test]
fn create_lobby_with_test_user_should_contains_test_user() {
    let mut service = LobbyService::new();
    let mut ps = players_with(&[(0, "test")]);
    service.create_lobby(&mut ps, 0, 4).unwrap();
    assert!(service.get_lobby(0).unwrap().get_player(0).is_some());
}

#[test]
fn add_player_to_lobby_with_test_user_and_test_lobby_should_add_player_to_lobby() {
    let mut service = LobbyService::new();
    let mut ps = players_with(&[(0, "test"), (1, "test2")]);
    let mut outbox: Vec<Broadcast> = Vec::new();
    service.create_lobby(&mut ps, 0, 4).unwrap();
    service
        .add_player_to_lobby(&mut ps, 1, 0, &mut outbox)
        .unwrap();
    assert!(service.get_lobby(0).unwrap().get_player(1).is_some());
}

#[test]
fn add_player_to_lobby_with_test_user_and_test_lobby_player_lobby_should_be_test_lobby() {
    let mut service = LobbyService::new();
    let mut ps = players_with(&[(0, "test"), (1, "test2")]);
    let mut outbox: Vec<Broadcast> = Vec::new();
    service.create_lobby(&mut ps, 0, 4).unwrap();
    service
        .add_player_to_lobby(&mut ps, 1, 0, &mut outbox)
        .unwrap();
    assert_eq!(ps.get_player(1).unwrap().lobby, Some(0));
}

#[test]
fn remove_player_from_lobby_with_test_user_in_test_lobby_should_quit_lobby() {
    let mut service = LobbyService::new();
    let mut ps = players_with(&[(0, "test"), (1, "test1")]);
    let mut outbox: Vec<Broadcast> = Vec::new();
    service.create_lobby(&mut ps, 0, 4).unwrap();
    service
        .add_player_to_lobby(&mut ps, 1, 0, &mut outbox)
        .unwrap();
    service
        .remove_player_from_lobby(&mut ps, 1, &mut outbox)
        .unwrap();
    assert!(service.get_lobby(0).unwrap().get_player(1).is_none());
}

#[test]
fn remove_player_from_lobby_with_leader_in_test_lobby_should_destroy_lobby() {
    let mut service = LobbyService::new();
    let mut ps = players_with(&[(0, "test")]);
    let mut outbox: Vec<Broadcast> = Vec::new();
    service.create_lobby(&mut ps, 0, 4).unwrap();
    service
        .remove_player_from_lobby(&mut ps, 0, &mut outbox)
        .unwrap();
    assert!(service.get_lobby(0).is_none());
}

#[test]
fn remove_player_from_lobby_with_leader_should_destroy_lobby() {
    let mut service = LobbyService::new();
    let mut ps = players_with(&[(0, "test")]);
    let mut outbox: Vec<Broadcast> = Vec::new();
    service.create_lobby(&mut ps, 0, 4).unwrap();
    service
        .remove_player_from_lobby(&mut ps, 0, &mut outbox)
        .unwrap();
    assert_eq!(service.get_lobbies().len(), 0);
}

#[test]
fn get_lobbies_with_test_looby_should_return_test_lobby() {
    let mut service = LobbyService::new();
    let mut ps = players_with(&[(0, "test")]);
    service.create_lobby(&mut ps, 0, 4).unwrap();
    assert_eq!(service.get_lobbies().len(), 1);
}

#[test]
fn lobby_service_remove_lobby_with_test_lobby_should_remove_lobby() {
    let mut service = LobbyService::new();
    let mut ps = players_with(&[(0, "test")]);
    service.create_lobby(&mut ps, 0, 4).unwrap();
    service.remove_lobby(0).unwrap();
    assert_eq!(service.get_lobbies().len(), 0);
}

// The members left behind by a quitting non-leader hear `Leave`, not
// `Destroy`.
#[test]
fn leaving_member_broadcasts_leave_to_the_rest() {
    let mut service = LobbyService::new();
    let mut ps = players_with(&[(0, "a"), (1, "b")]);
    let mut outbox: Vec<Broadcast> = Vec::new();
    service.create_lobby(&mut ps, 0, 4).unwrap();
    service
        .add_player_to_lobby(&mut ps, 1, 0, &mut outbox)
        .unwrap();
    outbox.clear();
    service
        .remove_player_from_lobby(&mut ps, 1, &mut outbox)
        .unwrap();
    assert_eq!(outbox.len(), 1);
    assert_eq!(outbox[0].targets, vec![0]);
    match &outbox[0].data {
        ResponseData::LobbyBroadcast(lb) => assert_eq!(lb.event, LobbyEvent::Leave),
        other => panic!("unexpected broadcast: {:?}", other),
    }
}

#[test]
fn toggle_ready_flips_the_flag() {
    let mut service = LobbyService::new();
    let mut ps = players_with(&[(0, "test")]);
    service.create_lobby(&mut ps, 0, 4).unwrap();
    assert_eq!(service.toggle_ready(0, 0), Ok(true));
    assert_eq!(service.toggle_ready(0, 0), Ok(false));
    assert_eq!(service.toggle_ready(7, 0), Err(GameError::LobbyNotFound));
}

#[test]
fn create_lobby_should_create_lobby() {
    let mut service = LobbyService::new();
    let mut ps = players_with(&[(0, "test")]);
    service.create_lobby(&mut ps, 0, 4).unwrap();
    assert!(service.get_lobby(0).is_some());
}

#[test]
fn get_lobby_with_test_lobby_should_return_lobby() {
    let mut service = LobbyService::new();
    let mut ps = players_with(&[(0, "test")]);
    service.create_lobby(&mut ps, 0, 4).unwrap();
    assert!(service.get_lobby(0).is_some());
}

#[test]
fn get_lobby_with_not_exist_lobby_should_return_none() {
    let service = LobbyService::new();
    assert!(service.get_lobby(0).is_none());
}

#[test]
fn lobbies_remove_lobby_with_test_lobby_should_remove_lobby() {
    let mut service = LobbyService::new();
    let mut ps = players_with(&[(0, "test")]);
    service.create_lobby(&mut ps, 0, 4).unwrap();
    service.remove_lobby(0).unwrap();
    assert_eq!(service.get_lobbies().len(), 0);
}

#[test]
fn remove_lobby_with_not_exist_lobby_should_return_none() {
    let mut service = LobbyService::new();
    assert!(service.remove_lobby(0).is_err());
}
