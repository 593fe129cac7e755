use std::collections::BTreeMap;

use runo::card::{Card, CardColor, ColoredCard, PlayedCard};
use runo::turn::{PlayAction, TurnAction, TurnActionResult};
use runo::uno::{PlayTurnResult, Uno};

fn players_info(count: usize) -> BTreeMap<u64, String> {
    let mut info = BTreeMap::new();
    for i in 0..count {
        info.insert(i as u64 * 10, format!("P{}", i));
    }
    info
}

fn hand_size(uno: &Uno, id: u64) -> usize {
    uno.get_player(&id).unwrap().cards_count()
}

fn give(uno: &mut Uno, id: u64, cards: Vec<Card>) {
    let player = uno.get_player_mut(&id).unwrap();
    player.hand = cards;
}

fn result(turn_action_result: TurnActionResult, won: bool) -> PlayTurnResult {
    PlayTurnResult {
        turn_action_result,
        won,
    }
}

#[test]
fn setup_deals_seven_each_for_every_allowed_size() {
    for n in 2..=10usize {
        let uno = Uno::new_with_ids(players_info(n)).unwrap();
        let ids = uno.get_player_ids();
        assert_eq!(ids, (0..n as u64).map(|i| i * 10).collect::<Vec<_>>());
        for id in &ids {
            let player = uno.get_player(id).unwrap();
            assert_eq!(player.cards_count(), 7);
            assert!(!player.uno_performed);
            assert_eq!(player.name, format!("P{}", id / 10));
        }
        assert_eq!(uno.get_deck_cards_count(), 108 - 1 - 7 * n);
        assert!(matches!(uno.get_last_played_card(), PlayedCard::Colored(_, _)));
        assert_eq!(uno.get_current_turn_player_id(), 0);
        assert_eq!(uno.get_next_turn_player_id(), 10);
    }
}

#[test]
fn new_assigns_distinct_ids_to_named_players() {
    let names: Vec<String> = (0..10).map(|i| format!("N{}", i)).collect();
    let uno = Uno::new(names.clone()).unwrap();
    let ids = uno.get_player_ids();
    assert_eq!(ids.len(), 10);
    for w in ids.windows(2) {
        assert!(w[0] < w[1]);
    }
    let mut dealt_names = Vec::new();
    for id in &ids {
        let player = uno.get_player(id).unwrap();
        dealt_names.push(player.name.clone());
        assert_eq!(player.cards_count(), 7);
    }
    dealt_names.sort();
    let mut expected = names.clone();
    expected.sort();
    assert_eq!(dealt_names, expected);
    assert_eq!(uno.get_deck_cards_count(), 108 - 1 - 70);
}

#[test]
fn setup_rejects_wrong_player_counts() {
    assert_eq!(
        Uno::new_with_ids(players_info(0)).unwrap_err(),
        runo::error::UnoError::NotEnoughPlayers
    );
    assert_eq!(
        Uno::new_with_ids(players_info(1)).unwrap_err(),
        runo::error::UnoError::NotEnoughPlayers
    );
    assert_eq!(
        Uno::new_with_ids(players_info(11)).unwrap_err(),
        runo::error::UnoError::TooManyPlayers
    );
}

#[test]
fn advancing_wraps_around_four_players() {
    let mut uno = Uno::new_with_ids(players_info(4)).unwrap();
    uno.move_turn_n_players_ahead(1);
    assert_eq!(uno.current_turn_index(), 1);
    uno.set_current_turn_index(3);
    uno.move_turn_n_players_ahead(1);
    assert_eq!(uno.current_turn_index(), 0);
    uno.move_turn_n_players_ahead(2);
    assert_eq!(uno.current_turn_index(), 2);
    uno.move_turn_n_players_ahead(7);
    assert_eq!(uno.current_turn_index(), 1);
}

#[test]
fn reverse_keeps_current_and_flips_next() {
    let mut uno = Uno::new_with_ids(players_info(4)).unwrap();
    uno.set_current_turn_index(1);
    assert_eq!(uno.get_current_turn_player_id(), 10);
    assert_eq!(uno.get_next_turn_player_id(), 20);
    give(
        &mut uno,
        10,
        vec![
            Card::Colored(CardColor::Blue, ColoredCard::Reverse),
            Card::Colored(CardColor::Red, ColoredCard::Number(4)),
        ],
    );
    let r = uno.play_turn(TurnAction::Play(PlayAction::ColoredCard(Card::Colored(
        CardColor::Blue,
        ColoredCard::Reverse,
    ))));
    assert_eq!(r, result(TurnActionResult::Reverse, false));
    assert_eq!(uno.get_current_turn_player_id(), 10);
    assert_eq!(uno.get_next_turn_player_id(), 0);
    assert_eq!(hand_size(&uno, 10), 1);
}

#[test]
fn absent_card_changes_nothing() {
    let mut uno = Uno::new_with_ids(players_info(3)).unwrap();
    give(&mut uno, 0, vec![Card::Colored(CardColor::Red, ColoredCard::Number(2))]);
    let before = *uno.get_last_played_card();
    let deck_before = uno.get_deck_cards_count();
    let r = uno.play_turn(TurnAction::Play(PlayAction::ColoredCard(Card::Colored(
        CardColor::Red,
        ColoredCard::Number(3),
    ))));
    assert_eq!(r, result(TurnActionResult::CardNotInHand, false));
    assert_eq!(*uno.get_last_played_card(), before);
    assert_eq!(
        uno.get_player(&0).unwrap().hand,
        vec![Card::Colored(CardColor::Red, ColoredCard::Number(2))]
    );
    assert_eq!(uno.get_current_turn_player_id(), 0);
    assert_eq!(uno.get_deck_cards_count(), deck_before);
}

#[test]
fn skip_moves_two_steps() {
    let mut uno = Uno::new_with_ids(players_info(4)).unwrap();
    uno.set_current_turn_index(3);
    give(
        &mut uno,
        30,
        vec![
            Card::Colored(CardColor::Green, ColoredCard::Skip),
            Card::Colored(CardColor::Green, ColoredCard::Skip),
        ],
    );
    let r = uno.play_turn(TurnAction::Play(PlayAction::ColoredCard(Card::Colored(
        CardColor::Green,
        ColoredCard::Skip,
    ))));
    assert_eq!(r, result(TurnActionResult::Skip, false));
    assert_eq!(uno.get_current_turn_player_id(), 10);
    assert_eq!(hand_size(&uno, 30), 1);
}

#[test]
fn draw_two_hits_the_next_player() {
    let mut uno = Uno::new_with_ids(players_info(3)).unwrap();
    give(
        &mut uno,
        0,
        vec![
            Card::Colored(CardColor::Yellow, ColoredCard::Draw),
            Card::Wild,
        ],
    );
    let deck_before = uno.get_deck_cards_count();
    let r = uno.play_turn(TurnAction::Play(PlayAction::ColoredCard(Card::Colored(
        CardColor::Yellow,
        ColoredCard::Draw,
    ))));
    assert_eq!(r, result(TurnActionResult::Draw, false));
    assert_eq!(hand_size(&uno, 10), 9);
    assert_eq!(hand_size(&uno, 20), 7);
    assert_eq!(uno.get_current_turn_player_id(), 10);
    assert_eq!(uno.get_deck_cards_count(), deck_before - 2);
    assert_eq!(
        *uno.get_last_played_card(),
        PlayedCard::Colored(CardColor::Yellow, ColoredCard::Draw)
    );
}

#[test]
fn wild_draw_hits_the_next_player() {
    let mut uno = Uno::new_with_ids(players_info(3)).unwrap();
    let r = uno.play_turn(TurnAction::Play(PlayAction::WildDraw(CardColor::Blue)));
    assert_eq!(r, result(TurnActionResult::WildDraw, false));
    assert_eq!(hand_size(&uno, 0), 7);
    assert_eq!(hand_size(&uno, 10), 11);
    assert_eq!(uno.get_current_turn_player_id(), 10);
    assert_eq!(*uno.get_last_played_card(), PlayedCard::WildDraw(CardColor::Blue));
}

#[test]
fn uno_call_with_one_card_costs_nothing() {
    let mut uno = Uno::new_with_ids(players_info(3)).unwrap();
    give(&mut uno, 0, vec![Card::Wild]);
    let deck_before = uno.get_deck_cards_count();
    let r = uno.play_turn(TurnAction::Uno);
    assert_eq!(r, result(TurnActionResult::UnoSuccessful, false));
    let player = uno.get_player(&0).unwrap();
    assert_eq!(player.hand, vec![Card::Wild]);
    assert!(player.uno_performed);
    assert_eq!(uno.get_deck_cards_count(), deck_before);
    assert_eq!(uno.get_current_turn_player_id(), 0);
}

#[test]
fn uno_call_with_other_hand_sizes_costs_two() {
    let mut uno = Uno::new_with_ids(players_info(3)).unwrap();
    let r = uno.play_turn(TurnAction::Uno);
    assert_eq!(r, result(TurnActionResult::UnoFailed, false));
    assert_eq!(hand_size(&uno, 0), 9);
    give(&mut uno, 0, vec![]);
    let r = uno.play_turn(TurnAction::Uno);
    assert_eq!(r, result(TurnActionResult::UnoFailed, false));
    assert_eq!(hand_size(&uno, 0), 2);
}

#[test]
fn callout_without_offenders_costs_the_caller() {
    let mut uno = Uno::new_with_ids(players_info(3)).unwrap();
    give(&mut uno, 0, vec![Card::Wild]);
    assert_eq!(uno.perform_callout(), Vec::<u64>::new());
    assert_eq!(hand_size(&uno, 0), 3);
    assert_eq!(hand_size(&uno, 10), 7);
    assert_eq!(hand_size(&uno, 20), 7);
}

#[test]
fn callout_hits_exactly_the_offenders() {
    let mut uno = Uno::new_with_ids(players_info(5)).unwrap();
    uno.set_current_turn_index(2);
    give(&mut uno, 40, vec![Card::Wild]);
    give(&mut uno, 10, vec![Card::WildDraw]);
    give(&mut uno, 20, vec![Card::Wild]);
    let r = uno.play_turn(TurnAction::Callout);
    assert_eq!(r, result(TurnActionResult::CalledOut(vec![10, 40]), false));
    assert_eq!(hand_size(&uno, 10), 3);
    assert_eq!(hand_size(&uno, 40), 3);
    assert_eq!(hand_size(&uno, 20), 1);
    assert_eq!(hand_size(&uno, 0), 7);
    assert_eq!(hand_size(&uno, 30), 7);
    assert_eq!(uno.get_current_turn_player_id(), 20);
}

#[test]
fn self_draw_takes_two() {
    let mut uno = Uno::new_with_ids(players_info(2)).unwrap();
    let r = uno.play_turn(TurnAction::Draw);
    assert_eq!(r, result(TurnActionResult::SelfDraw, false));
    assert_eq!(hand_size(&uno, 0), 9);
    assert_eq!(uno.get_current_turn_player_id(), 0);
}

#[test]
fn exhausted_pile_refuses_draws_without_change() {
    let mut uno = Uno::new_with_ids(players_info(4)).unwrap();
    assert_eq!(uno.get_deck_cards_count(), 79);
    for _ in 0..39 {
        let r = uno.play_turn(TurnAction::Draw);
        assert_eq!(r, result(TurnActionResult::SelfDraw, false));
    }
    assert_eq!(uno.get_deck_cards_count(), 1);
    let before = hand_size(&uno, 0);
    let r = uno.play_turn(TurnAction::Draw);
    assert_eq!(r, result(TurnActionResult::DeckExhausted, false));
    assert_eq!(hand_size(&uno, 0), before);
    assert_eq!(uno.get_deck_cards_count(), 1);
    let r = uno.play_turn(TurnAction::Play(PlayAction::WildDraw(CardColor::Red)));
    assert_eq!(r, result(TurnActionResult::DeckExhausted, false));
    assert!(matches!(uno.get_last_played_card(), PlayedCard::Colored(_, _)));
}

#[test]
fn winner_leaves_and_is_kept_in_order() {
    let mut uno = Uno::new_with_ids(players_info(3)).unwrap();
    give(&mut uno, 0, vec![Card::Colored(CardColor::Red, ColoredCard::Number(5))]);
    let r = uno.play_turn(TurnAction::Play(PlayAction::ColoredCard(Card::Colored(
        CardColor::Red,
        ColoredCard::Number(5),
    ))));
    assert_eq!(r, result(TurnActionResult::Neutral, true));
    assert_eq!(uno.get_player_ids(), vec![10, 20]);
    assert_ne!(uno.get_current_turn_player_id(), 0);
    assert_ne!(uno.get_next_turn_player_id(), 0);
    assert_eq!(uno.get_player(&0).unwrap().cards_count(), 0);

    let current = uno.get_current_turn_player_id();
    give(&mut uno, current, vec![Card::Colored(CardColor::Blue, ColoredCard::Number(1))]);
    let r = uno.play_turn(TurnAction::Play(PlayAction::ColoredCard(Card::Colored(
        CardColor::Blue,
        ColoredCard::Number(1),
    ))));
    assert_eq!(r, result(TurnActionResult::Neutral, true));
    assert_eq!(uno.get_player_ids().len(), 1);
    let last = uno.get_player_ids()[0];
    assert_eq!(uno.get_current_turn_player_id(), last);
    assert_eq!(uno.get_next_turn_player_id(), last);
}

#[test]
fn wild_play_sets_color_and_moves_on() {
    let mut uno = Uno::new_with_ids(players_info(2)).unwrap();
    let r = uno.play_turn(TurnAction::Play(PlayAction::Wild(CardColor::Green)));
    assert_eq!(r, result(TurnActionResult::Wild, false));
    assert_eq!(*uno.get_last_played_card(), PlayedCard::Wild(CardColor::Green));
    assert_eq!(uno.get_current_turn_player_id(), 10);
    assert_eq!(hand_size(&uno, 0), 7);
}

#[test]
fn reversed_turns_follow_the_reported_next_player() {
    let mut uno = Uno::new_with_ids(players_info(3)).unwrap();
    uno.perform_reverse();
    assert_eq!(uno.get_current_turn_player_id(), 0);
    assert_eq!(uno.get_next_turn_player_id(), 20);
    give(
        &mut uno,
        0,
        vec![
            Card::Colored(CardColor::Red, ColoredCard::Number(1)),
            Card::Colored(CardColor::Red, ColoredCard::Skip),
            Card::Colored(CardColor::Red, ColoredCard::Draw),
        ],
    );
    let r = uno.play_turn(TurnAction::Play(PlayAction::ColoredCard(Card::Colored(
        CardColor::Red,
        ColoredCard::Number(1),
    ))));
    assert_eq!(r, result(TurnActionResult::Neutral, false));
    assert_eq!(uno.get_current_turn_player_id(), 20);
    assert_eq!(uno.get_next_turn_player_id(), 10);

    give(&mut uno, 20, vec![Card::Colored(CardColor::Red, ColoredCard::Skip), Card::Wild]);
    let r = uno.play_turn(TurnAction::Play(PlayAction::ColoredCard(Card::Colored(
        CardColor::Red,
        ColoredCard::Skip,
    ))));
    assert_eq!(r, result(TurnActionResult::Skip, false));
    assert_eq!(uno.get_current_turn_player_id(), 0);

    let r = uno.play_turn(TurnAction::Play(PlayAction::ColoredCard(Card::Colored(
        CardColor::Red,
        ColoredCard::Draw,
    ))));
    assert_eq!(r, result(TurnActionResult::Draw, false));
    assert_eq!(hand_size(&uno, 20), 3);
    assert_eq!(uno.get_current_turn_player_id(), 20);

    let r = uno.play_turn(TurnAction::Play(PlayAction::WildDraw(CardColor::Blue)));
    assert_eq!(r, result(TurnActionResult::WildDraw, false));
    assert_eq!(hand_size(&uno, 10), 11);
    assert_eq!(uno.get_current_turn_player_id(), 10);
}

#[test]
fn refused_play_on_an_empty_hand_wins_nothing() {
    let mut uno = Uno::new_with_ids(players_info(3)).unwrap();
    give(&mut uno, 0, vec![]);
    let r = uno.play_turn(TurnAction::Play(PlayAction::ColoredCard(Card::Colored(
        CardColor::Red,
        ColoredCard::Number(3),
    ))));
    assert_eq!(r, result(TurnActionResult::CardNotInHand, false));
    assert_eq!(uno.get_player_ids(), vec![0, 10, 20]);
    assert_eq!(uno.get_current_turn_player_id(), 0);
}

#[test]
fn coloured_play_naming_a_wild_card_is_refused() {
    let mut uno = Uno::new_with_ids(players_info(2)).unwrap();
    give(&mut uno, 0, vec![Card::Wild, Card::WildDraw]);
    let r = uno.play_turn(TurnAction::Play(PlayAction::ColoredCard(Card::Wild)));
    assert_eq!(r, result(TurnActionResult::CardNotInHand, false));
    assert_eq!(uno.get_player(&0).unwrap().hand, vec![Card::Wild, Card::WildDraw]);
    assert_eq!(uno.get_current_turn_player_id(), 0);
}
