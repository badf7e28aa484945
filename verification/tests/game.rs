use blackjack::model::{Card, Command, Game, GameResult};

fn hand(ids: &[i32]) -> Vec<Card> {
    let mut cards = Vec::new();
    for &id in ids {
        cards.push(Card::new(id));
    }
    cards
}

fn all_ids(game: &Game) -> Vec<i32> {
    let mut ids = Vec::new();
    for card in &game.deck {
        ids.push(card.id);
    }
    for card in &game.dealer_cards {
        ids.push(card.id);
    }
    for card in &game.player_cards {
        ids.push(card.id);
    }
    ids
}

#[test]
fn card_number_and_mark() {
    assert_eq!(Card::new(1).number(), 1); // ace of the first suit
    assert_eq!(Card::new(1).mark(), 0);
    assert_eq!(Card::new(13).number(), 0); // king of the first suit
    assert_eq!(Card::new(13).mark(), 0);
    assert_eq!(Card::new(14).number(), 1); // ace of the second suit
    assert_eq!(Card::new(14).mark(), 1);
    assert_eq!(Card::new(52).number(), 0); // king of the last suit
    assert_eq!(Card::new(52).mark(), 3);
}

#[test]
fn ace_counts_eleven() {
    let game = Game::new(0);
    assert_eq!(game.calc_point(&hand(&[1])), 11);
    assert_eq!(game.calc_point(&hand(&[14])), 11);
}

#[test]
fn face_cards_count_ten() {
    let game = Game::new(0);
    assert_eq!(game.calc_point(&hand(&[11])), 10); // jack
    assert_eq!(game.calc_point(&hand(&[12])), 10); // queen
    assert_eq!(game.calc_point(&hand(&[13])), 10); // king
}

#[test]
fn number_cards_count_their_number() {
    let game = Game::new(0);
    for n in 2..=10 {
        assert_eq!(game.calc_point(&hand(&[n])), n);
        assert_eq!(game.calc_point(&hand(&[n + 13])), n);
    }
}

#[test]
fn hand_totals_sum_card_points() {
    let game = Game::new(0);
    assert_eq!(game.calc_point(&hand(&[])), 0);
    assert_eq!(game.calc_point(&hand(&[1, 10])), 21);
    assert_eq!(game.calc_point(&hand(&[10, 23, 9])), 29);
    assert_eq!(game.calc_point(&hand(&[1, 1, 1])), 33);
}

#[test]
fn new_game_is_empty() {
    let game = Game::new(42);
    assert!(!game.is_over);
    assert_eq!(game.result, GameResult::Undecided);
    assert!(game.player_cards.is_empty());
    assert!(game.dealer_cards.is_empty());
    assert!(game.deck.is_empty());
    assert_eq!(game.win_count, 0);
    assert_eq!(game.lose_count, 0);
    assert!(game.requested_sounds.is_empty());
}

#[test]
fn init_deals_a_full_deck() {
    let mut game = Game::new(42);
    game.init();
    assert_eq!(game.deck.len(), 49);
    assert_eq!(game.dealer_cards.len(), 1);
    assert_eq!(game.player_cards.len(), 2);
    let mut ids = all_ids(&game);
    ids.sort();
    let expected: Vec<i32> = (1..=52).collect();
    assert_eq!(ids, expected);
}

#[test]
fn init_shuffles_the_deck() {
    let mut game = Game::new(42);
    game.init();
    let ids = all_ids(&game);
    let unshuffled: Vec<i32> = (1..=52).collect();
    assert_ne!(ids, unshuffled);
}

#[test]
fn hit_draws_the_top_card() {
    let mut game = Game::new(0);
    game.player_cards = hand(&[2, 3]);
    game.deck = hand(&[7, 5]);
    game.hit();
    assert_eq!(game.player_cards.last().unwrap().id, 5);
    assert_eq!(game.player_cards.len(), 3);
    assert_eq!(game.deck.len(), 1);
    assert!(!game.is_over);
    assert_eq!(game.result, GameResult::Undecided);
    assert_eq!(game.lose_count, 0);
    assert!(game.requested_sounds.is_empty());
}

#[test]
fn hit_busts_over_twenty_one() {
    let mut game = Game::new(0);
    game.player_cards = hand(&[10, 23]); // 10 + 10 points
    game.deck = hand(&[2]); // drawing 2 makes 22
    game.hit();
    assert!(game.is_over);
    assert_eq!(game.result, GameResult::Bust);
    assert_eq!(game.lose_count, 1);
    assert_eq!(game.win_count, 0);
    assert_eq!(game.requested_sounds, vec!["crash.wav"]);
}

#[test]
fn stand_wins_on_higher_total() {
    let mut game = Game::new(0);
    game.player_cards = hand(&[10, 9]); // 19
    game.dealer_cards = hand(&[8]); // 8
    game.stand();
    assert!(game.is_over);
    assert_eq!(game.result, GameResult::Win);
    assert_eq!(game.win_count, 1);
    assert_eq!(game.lose_count, 0);
    assert_eq!(game.requested_sounds, vec!["clear.wav"]);
}

#[test]
fn stand_loses_on_lower_total() {
    let mut game = Game::new(0);
    game.player_cards = hand(&[2, 3]); // 5
    game.dealer_cards = hand(&[10, 9]); // 19
    game.stand();
    assert!(game.is_over);
    assert_eq!(game.result, GameResult::Lose);
    assert_eq!(game.win_count, 0);
    assert_eq!(game.lose_count, 1);
    assert_eq!(game.requested_sounds, vec!["crash.wav"]);
}

#[test]
fn stand_pushes_on_equal_totals() {
    let mut game = Game::new(0);
    game.player_cards = hand(&[10, 9]); // 19
    game.dealer_cards = hand(&[23, 9]); // 19
    game.stand();
    assert!(game.is_over);
    assert_eq!(game.result, GameResult::Push);
    assert_eq!(game.win_count, 0);
    assert_eq!(game.lose_count, 0);
    assert!(game.requested_sounds.is_empty());
}

#[test]
fn decide_result_matches_stand() {
    let mut game = Game::new(0);
    game.player_cards = hand(&[1, 10]); // 21
    game.dealer_cards = hand(&[13]); // 10
    game.decide_result();
    assert!(game.is_over);
    assert_eq!(game.result, GameResult::Win);
    assert_eq!(game.win_count, 1);
}

#[test]
fn update_applies_the_command() {
    let mut game = Game::new(0);
    game.player_cards = hand(&[2, 3]);
    game.dealer_cards = hand(&[4]);
    game.deck = hand(&[7]);
    game.update(Command::Hit);
    assert_eq!(game.player_cards.len(), 3);
    assert_eq!(game.deck.len(), 0);

    let mut game = Game::new(0);
    game.player_cards = hand(&[10, 9]);
    game.dealer_cards = hand(&[8]);
    game.update(Command::Stand);
    assert_eq!(game.result, GameResult::Win);
}

#[test]
fn update_idle_changes_nothing() {
    let mut game = Game::new(0);
    game.player_cards = hand(&[2, 3]);
    game.dealer_cards = hand(&[4]);
    game.deck = hand(&[7]);
    game.update(Command::Idle);
    assert!(!game.is_over);
    assert_eq!(game.result, GameResult::Undecided);
    assert_eq!(game.player_cards.len(), 2);
    assert_eq!(game.deck.len(), 1);
}

#[test]
fn update_does_nothing_once_over() {
    let mut game = Game::new(0);
    game.player_cards = hand(&[10, 23]);
    game.dealer_cards = hand(&[4]);
    game.deck = hand(&[2]);
    game.is_over = true;
    game.update(Command::Hit);
    assert_eq!(game.player_cards.len(), 2);
    assert_eq!(game.deck.len(), 1);
    assert_eq!(game.result, GameResult::Undecided);
    assert_eq!(game.lose_count, 0);
}

#[test]
fn same_seed_same_deal() {
    let mut first = Game::new(123);
    first.init();
    let mut second = Game::new(123);
    second.init();
    assert_eq!(all_ids(&first), all_ids(&second));
}
