use wordboard::cards::Card;
use wordboard::game::{Game, GamePlayer, END_GAME_TURN};

#[test]
fn next_turn_without_parameter_should_return_2() {
    let mut game = Game::new(0, &vec![0, 1]);
    game.next_turn();
    assert_eq!(game.get_turns(), 2);
}

#[test]
fn get_next_turn_player_only_one_person_without_parameter_should_return_previous_player() {
    let game = Game::new(0, &vec![0]);
    let current = game.get_player_in_this_turn().player_id;
    let next_player = game.get_next_turn_player().unwrap();
    assert_eq!(next_player.player_id, current);
}

#[test]
fn get_next_turn_player_only_one_person_exceed_end_game_turn_without_parameter_should_return_none()
{
    let mut game = Game::new(0, &vec![0]);
    game.set_turn(END_GAME_TURN);
    assert!(game.get_next_turn_player().is_none());
}

#[test]
fn next_turn_has_shuffled_reset() {
    let mut game = Game::new(0, &vec![0, 1]);
    let qi = game.find_player(game.get_player_in_this_turn().player_id).unwrap();
    let mut gp = game.player_at(qi).clone();
    gp.set_has_shuffled(true);
    let front_id = gp.player_id;
    game.set_player_at(qi, gp);
    game.next_turn();
    let back = game.find_player(front_id).unwrap();
    assert_eq!(game.player_at(back).get_has_shuffled(), false);
}

#[test]
fn next_turn_without_parameter_should_return_first_person_when_his_second_round() {
    let mut game = Game::new(0, &vec![0, 1]);
    let first = game.get_player_in_this_turn().player_id;
    game.next_turn();
    game.next_turn();
    assert_eq!(game.get_player_in_this_turn().player_id, first);
}

#[test]
fn next_turn_without_parameter_player_in_this_turn_should_changed() {
    let mut game = Game::new(0, &vec![0, 1]);
    let first = game.get_player_in_this_turn().player_id;
    game.next_turn();
    let second = game.get_player_in_this_turn().player_id;
    assert_ne!(second, first);
}

#[test]
fn cancel_timeout_task_with_exist_timeout_task_should_cancel_the_task_and_return_true() {
    let mut game = Game::new(0, &vec![0]);
    let _token = game.arm_timer();
    assert!(game.cancel_timeout_task());
}

#[test]
fn cancel_timeout_task_with_none_should_return_false() {
    let mut game = Game::new(0, &vec![0]);
    assert!(!game.cancel_timeout_task());
}

// A full round of the rotation: with as many turns as players, the front
// returns to the original front and the counter grew by exactly that
// many.
#[test]
fn next_turn_full_round_restores_front_and_adds_queue_length_to_counter() {
    let mut game = Game::new(0, &vec![4, 9, 2]);
    let order_before: Vec<u32> = (0..game.player_count())
        .map(|i| game.player_at(i).player_id)
        .collect();
    let turns_before = game.get_turns();
    for _ in 0..order_before.len() {
        game.next_turn();
    }
    let order_after: Vec<u32> = (0..game.player_count())
        .map(|i| game.player_at(i).player_id)
        .collect();
    assert_eq!(order_after, order_before);
    assert_eq!(game.get_turns(), turns_before + order_before.len() as u32);
}

// A freshly armed token claims the slot once; the same token never
// claims twice, and an explicit cancel beats a later claim.
#[test]
fn claim_timer_is_exclusive() {
    let mut game = Game::new(0, &vec![0]);
    let token = game.arm_timer();
    assert!(game.claim_timer(token));
    assert!(!game.claim_timer(token));
    let token2 = game.arm_timer();
    assert_ne!(token, token2);
    assert!(game.cancel_timeout_task());
    assert!(!game.claim_timer(token2));
}

// Re-arming displaces the old token: the stale holder loses the race.
#[test]
fn rearm_displaces_stale_token() {
    let mut game = Game::new(0, &vec![0]);
    let stale = game.arm_timer();
    let live = game.arm_timer();
    assert!(!game.claim_timer(stale));
    assert!(game.claim_timer(live));
}

#[test]
fn new_game_deals_eight_fresh_cards_per_player() {
    let game = Game::new(3, &vec![10, 11]);
    assert_eq!(game.get_turns(), 1);
    for i in 0..game.player_count() {
        let cards = game.player_at(i).get_cards();
        assert_eq!(cards.len(), 8);
        assert!(cards.iter().all(|c| !c.used));
        for c in cards[..3].iter() {
            assert!("aeiou".contains(c.ch));
        }
        for c in cards[3..].iter() {
            assert!(c.ch.is_ascii_lowercase() && !"aeiou".contains(c.ch));
        }
    }
}

#[test]
fn take_and_return_card_toggle_used() {
    let mut gp = GamePlayer::new(5);
    let before = gp.get_cards();
    let taken = gp.take_card(2);
    assert_eq!(taken.ch, before[2].ch);
    assert!(taken.used);
    assert!(gp.get_cards()[2].used);
    gp.return_cancel_card(taken.ch);
    assert!(!gp.get_cards()[2].used);
}

#[test]
fn get_new_card_spends_the_shuffle_and_redraws() {
    let mut gp = GamePlayer::new(5);
    assert!(!gp.get_has_shuffled());
    let hand = gp.get_new_card();
    assert!(gp.get_has_shuffled());
    assert_eq!(hand.len(), 8);
    assert!(hand.iter().all(|c: &Card| !c.used));
}
