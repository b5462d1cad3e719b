use war_game::war::{resolve_war, short_battle, war_round, war_settle};
use war_game::{Card, Event, Face, Game, Player, Stats, Suit};

fn card(suit: Suit, face: Face) -> Card {
    Card::new(suit, face)
}

fn hearts(face: Face) -> Card {
    card(Suit::Hearts, face)
}

fn spades(face: Face) -> Card {
    card(Suit::Spades, face)
}

fn holding(draw: Vec<Card>) -> Player {
    Player { draw_pile: draw, winnings_pile: vec![] }
}

fn game_of(player0: Player, player1: Player) -> Game {
    Game { players: (player0, player1), stats: Stats { turn_number: 0 }, rng: rand::thread_rng() }
}

fn joined(first: &[Card], second: &[Card]) -> Vec<Card> {
    let mut all = first.to_vec();
    all.extend_from_slice(second);
    all
}

fn assert_war_start(event: &Event, cards: (Card, Card), length: usize) {
    match event {
        Event::WarStart { top_cards, expected_length } => {
            assert_eq!(*top_cards, cards);
            assert_eq!(*expected_length, length);
        }
        other => panic!("expected the start of a war, got {:?}", other),
    }
}

fn assert_war_shortened(event: &Event, player: usize, length: usize, expected: usize) {
    match event {
        Event::WarShortened {
            player_id_with_insufficient_cards,
            length_of_war_after_shortening,
            initial_length_of_war,
        } => {
            assert_eq!(*player_id_with_insufficient_cards, player);
            assert_eq!(*length_of_war_after_shortening, length);
            assert_eq!(*initial_length_of_war, expected);
        }
        other => panic!("expected a war cut short, got {:?}", other),
    }
}

fn assert_war_end(event: &Event, winner: usize, cards: (Card, Card)) {
    match event {
        Event::WarEnd { winning_player_id, final_top_cards } => {
            assert_eq!(*winning_player_id, winner);
            assert_eq!(*final_top_cards, cards);
        }
        other => panic!("expected the end of a war, got {:?}", other),
    }
}

#[test]
fn short_battle_gives_the_pot_to_the_stronger_card() {
    let mut players = (holding(vec![hearts(Face::Number(2))]), holding(vec![]));
    let pot = vec![spades(Face::Number(9)), hearts(Face::Queen)];
    let event = short_battle(&mut players, hearts(Face::Queen), spades(Face::Number(9)), pot.clone());
    match event {
        Event::ShortBattle { winning_player_id, winning_card, losing_card, pot: reported } => {
            assert_eq!(winning_player_id, 0);
            assert_eq!(winning_card, hearts(Face::Queen));
            assert_eq!(losing_card, spades(Face::Number(9)));
            assert_eq!(reported, pot);
        }
        other => panic!("expected a short battle, got {:?}", other),
    }
    assert_eq!(players.0.draw_pile, vec![hearts(Face::Number(2))]);
    assert_eq!(players.0.winnings_pile, pot);
    assert!(players.1.is_dead());
}

#[test]
fn short_battle_won_by_player_one() {
    let mut players = (holding(vec![]), Player {
        draw_pile: vec![],
        winnings_pile: vec![spades(Face::Number(4))],
    });
    let pot = vec![hearts(Face::King), spades(Face::Ace)];
    let event = short_battle(&mut players, hearts(Face::King), spades(Face::Ace), pot.clone());
    match event {
        Event::ShortBattle { winning_player_id, winning_card, losing_card, pot: reported } => {
            assert_eq!(winning_player_id, 1);
            assert_eq!(winning_card, spades(Face::Ace));
            assert_eq!(losing_card, hearts(Face::King));
            assert_eq!(reported, pot);
        }
        other => panic!("expected a short battle, got {:?}", other),
    }
    assert!(players.0.is_dead());
    assert_eq!(
        players.1.winnings_pile,
        vec![spades(Face::Number(4)), hearts(Face::King), spades(Face::Ace)]
    );
}

#[test]
fn round_over_jacks_stakes_twelve_more_cards_each() {
    let mut draw0 = vec![hearts(Face::Number(2))];
    let mut draw1 = vec![spades(Face::Number(3))];
    for n in 2u8..=10 {
        draw0.push(card(Suit::Diamonds, Face::Number(n)));
        draw1.push(card(Suit::Clubs, Face::Number(n)));
    }
    for face in [Face::Queen, Face::King, Face::Ace] {
        draw0.push(card(Suit::Diamonds, face));
        draw1.push(card(Suit::Clubs, face));
    }
    assert_eq!(draw0.len(), 13);
    let mut players = (holding(draw0.clone()), holding(draw1.clone()));
    let mut pot = (vec![hearts(Face::Jack)], vec![spades(Face::Jack)]);
    let mut events = Vec::new();
    war_round(&mut players, &mut pot, &mut events);
    assert_eq!(events.len(), 1);
    assert_war_start(&events[0], (hearts(Face::Jack), spades(Face::Jack)), 12);
    assert_eq!(pot.0.len(), 13);
    assert_eq!(pot.1.len(), 13);
    assert_eq!(pot.0.len() + pot.1.len(), 26);
    let mut staked0 = draw0[1..].to_vec();
    staked0.reverse();
    assert_eq!(pot.0, joined(&[hearts(Face::Jack)], &staked0));
    let mut staked1 = draw1[1..].to_vec();
    staked1.reverse();
    assert_eq!(pot.1, joined(&[spades(Face::Jack)], &staked1));
    assert_eq!(players.0.draw_pile, vec![hearts(Face::Number(2))]);
    assert_eq!(players.1.draw_pile, vec![spades(Face::Number(3))]);
}

#[test]
fn round_stakes_the_war_length_of_each_face() {
    let faces = [
        (Face::Ace, 1usize),
        (Face::Number(2), 2),
        (Face::Number(7), 7),
        (Face::Number(10), 10),
        (Face::Jack, 12),
        (Face::Queen, 13),
        (Face::King, 14),
    ];
    for (face, length) in faces {
        let filler: Vec<Card> = (0..20).map(|_| card(Suit::Clubs, Face::Number(5))).collect();
        let mut players = (holding(filler.clone()), holding(filler.clone()));
        let mut pot = (vec![hearts(face)], vec![spades(face)]);
        let mut events = Vec::new();
        war_round(&mut players, &mut pot, &mut events);
        assert_eq!(events.len(), 1);
        assert_war_start(&events[0], (hearts(face), spades(face)), length);
        assert_eq!(pot.0.len(), 1 + length);
        assert_eq!(pot.1.len(), 1 + length);
        assert_eq!(players.0.count_cards(), 20 - length);
        assert_eq!(players.1.count_cards(), 20 - length);
    }
}

#[test]
fn round_is_not_cut_short_when_the_cards_just_suffice() {
    let mut players = (
        holding(vec![hearts(Face::Number(4)), hearts(Face::Number(5))]),
        holding(vec![spades(Face::Number(6)), spades(Face::Number(7)), spades(Face::Number(8))]),
    );
    let mut pot = (vec![hearts(Face::Number(2))], vec![spades(Face::Number(2))]);
    let mut events = Vec::new();
    war_round(&mut players, &mut pot, &mut events);
    assert_eq!(events.len(), 1);
    assert_war_start(&events[0], (hearts(Face::Number(2)), spades(Face::Number(2))), 2);
    assert!(players.0.is_dead());
    assert_eq!(players.1.count_cards(), 1);
    assert_eq!(pot.0, vec![hearts(Face::Number(2)), hearts(Face::Number(5)), hearts(Face::Number(4))]);
    assert_eq!(pot.1, vec![spades(Face::Number(2)), spades(Face::Number(8)), spades(Face::Number(7))]);
}

#[test]
fn round_is_cut_short_when_a_player_runs_out() {
    let mut players = (
        holding(vec![hearts(Face::Number(5)), hearts(Face::Number(3))]),
        holding(vec![spades(Face::Number(9))]),
    );
    let mut pot = (vec![hearts(Face::Queen)], vec![spades(Face::Queen)]);
    let mut events = Vec::new();
    war_round(&mut players, &mut pot, &mut events);
    assert_eq!(events.len(), 2);
    assert_war_start(&events[0], (hearts(Face::Queen), spades(Face::Queen)), 13);
    assert_war_shortened(&events[1], 1, 1, 13);
    assert_eq!(pot.0, vec![hearts(Face::Queen), hearts(Face::Number(3))]);
    assert_eq!(pot.1, vec![spades(Face::Queen), spades(Face::Number(9))]);
    assert_eq!(players.0.draw_pile, vec![hearts(Face::Number(5))]);
    assert!(players.1.is_dead());
}

#[test]
fn round_cut_short_names_player_zero_when_both_run_out() {
    let mut players = (
        holding(vec![hearts(Face::Number(5))]),
        holding(vec![spades(Face::Number(9))]),
    );
    let mut pot = (vec![hearts(Face::King)], vec![spades(Face::King)]);
    let mut events = Vec::new();
    war_round(&mut players, &mut pot, &mut events);
    assert_eq!(events.len(), 2);
    assert_war_start(&events[0], (hearts(Face::King), spades(Face::King)), 14);
    assert_war_shortened(&events[1], 0, 1, 14);
    assert!(players.0.is_dead());
    assert!(players.1.is_dead());
}

#[test]
fn round_without_any_card_left_stakes_nothing() {
    let mut players = (holding(vec![]), holding(vec![spades(Face::Number(9))]));
    let mut pot = (vec![hearts(Face::Ace)], vec![spades(Face::Ace)]);
    let mut events = Vec::new();
    war_round(&mut players, &mut pot, &mut events);
    assert_eq!(events.len(), 2);
    assert_war_start(&events[0], (hearts(Face::Ace), spades(Face::Ace)), 1);
    assert_war_shortened(&events[1], 0, 0, 1);
    assert_eq!(pot.0, vec![hearts(Face::Ace)]);
    assert_eq!(pot.1, vec![spades(Face::Ace)]);
    assert_eq!(players.1.count_cards(), 1);
}

#[test]
fn round_draws_through_the_winnings_pile() {
    let mut players = (
        Player {
            draw_pile: vec![hearts(Face::Number(4))],
            winnings_pile: vec![hearts(Face::Number(6)), hearts(Face::Number(8))],
        },
        holding(vec![spades(Face::Number(5)), spades(Face::Number(7)), spades(Face::Number(9))]),
    );
    let mut pot = (vec![hearts(Face::Number(2))], vec![spades(Face::Number(2))]);
    let mut events = vec![Event::GameOver { winning_player_id: 7 }];
    war_round(&mut players, &mut pot, &mut events);
    assert_eq!(events.len(), 2);
    assert!(matches!(events[0], Event::GameOver { winning_player_id: 7 }));
    assert_eq!(pot.0, vec![hearts(Face::Number(2)), hearts(Face::Number(4)), hearts(Face::Number(8))]);
    assert_eq!(players.0.draw_pile, vec![hearts(Face::Number(6))]);
    assert!(players.0.winnings_pile.is_empty());
}

#[test]
fn settle_gives_both_stacks_to_the_stronger_top_card() {
    let stacks = (
        vec![hearts(Face::Ace), hearts(Face::King)],
        vec![spades(Face::Ace), spades(Face::Number(7))],
    );
    let mut players = (holding(vec![hearts(Face::Number(2))]), holding(vec![]));
    let end = war_settle(&mut players, &stacks, true).expect("the war is decided");
    assert_war_end(&end, 0, (hearts(Face::King), spades(Face::Number(7))));
    assert_eq!(players.0.winnings_pile, joined(&stacks.0, &stacks.1));
    assert_eq!(players.0.draw_pile, vec![hearts(Face::Number(2))]);
    assert!(players.1.is_dead());

    let mut players = (holding(vec![hearts(Face::Number(2))]), holding(vec![]));
    let end = war_settle(&mut players, &stacks, false).expect("the war is decided");
    assert_war_end(&end, 0, (hearts(Face::King), spades(Face::Number(7))));
    assert_eq!(players.0.winnings_pile, joined(&stacks.1, &stacks.0));
}

#[test]
fn settle_for_player_one() {
    let stacks = (vec![hearts(Face::Ace), hearts(Face::Number(3))], vec![spades(Face::Ace), spades(Face::Jack)]);
    let mut players = (holding(vec![hearts(Face::Number(2))]), Player {
        draw_pile: vec![],
        winnings_pile: vec![spades(Face::Number(2))],
    });
    let end = war_settle(&mut players, &stacks, true).expect("the war is decided");
    assert_war_end(&end, 1, (hearts(Face::Number(3)), spades(Face::Jack)));
    assert_eq!(
        players.1.winnings_pile,
        joined(&[spades(Face::Number(2))], &joined(&stacks.0, &stacks.1))
    );
    assert_eq!(players.0.count_cards(), 1);
}

#[test]
fn settle_leaves_a_tie_between_living_players_open() {
    let stacks = (vec![hearts(Face::Ace), hearts(Face::Number(3))], vec![spades(Face::Ace), spades(Face::Number(3))]);
    let mut players = (holding(vec![hearts(Face::Number(2))]), holding(vec![spades(Face::Number(2))]));
    assert!(war_settle(&mut players, &stacks, true).is_none());
    assert_eq!(players.0.draw_pile, vec![hearts(Face::Number(2))]);
    assert_eq!(players.1.draw_pile, vec![spades(Face::Number(2))]);
    assert!(players.0.winnings_pile.is_empty());
    assert!(players.1.winnings_pile.is_empty());
}

#[test]
fn settle_gives_a_tie_to_the_player_who_still_holds_cards() {
    let stacks = (vec![hearts(Face::Number(3))], vec![spades(Face::Number(3))]);
    let mut players = (holding(vec![hearts(Face::Number(2))]), holding(vec![]));
    let end = war_settle(&mut players, &stacks, true).expect("the war is decided");
    assert_war_end(&end, 0, (hearts(Face::Number(3)), spades(Face::Number(3))));
    assert_eq!(players.0.count_cards(), 3);

    let mut players = (holding(vec![]), holding(vec![spades(Face::Number(2))]));
    let end = war_settle(&mut players, &stacks, false).expect("the war is decided");
    assert_war_end(&end, 1, (hearts(Face::Number(3)), spades(Face::Number(3))));
    assert_eq!(players.1.winnings_pile, joined(&stacks.1, &stacks.0));
}

#[test]
fn settle_gives_a_tie_between_two_empty_hands_to_player_one() {
    let stacks = (vec![hearts(Face::Number(3))], vec![spades(Face::Number(3))]);
    let mut players = (holding(vec![]), holding(vec![]));
    let end = war_settle(&mut players, &stacks, true).expect("the war is decided");
    assert_war_end(&end, 1, (hearts(Face::Number(3)), spades(Face::Number(3))));
    assert!(players.0.is_dead());
    assert_eq!(players.1.winnings_pile, joined(&stacks.0, &stacks.1));
}

#[test]
fn war_decided_after_one_round() {
    let mut game = game_of(
        holding(vec![hearts(Face::Number(2)), hearts(Face::King)]),
        holding(vec![spades(Face::Number(3)), spades(Face::Number(7))]),
    );
    let mut pot = (vec![hearts(Face::Ace)], vec![spades(Face::Ace)]);
    let mut events = Vec::new();
    resolve_war(&mut game, &mut pot, &mut events);
    assert_eq!(events.len(), 2);
    assert_war_start(&events[0], (hearts(Face::Ace), spades(Face::Ace)), 1);
    assert_war_end(&events[1], 0, (hearts(Face::King), spades(Face::Number(7))));
    let stack0 = vec![hearts(Face::Ace), hearts(Face::King)];
    let stack1 = vec![spades(Face::Ace), spades(Face::Number(7))];
    assert_eq!(pot, (stack0.clone(), stack1.clone()));
    let won = game.players.0.winnings_pile.clone();
    assert!(won == joined(&stack0, &stack1) || won == joined(&stack1, &stack0));
    assert_eq!(game.players.0.draw_pile, vec![hearts(Face::Number(2))]);
    assert_eq!(game.players.1.draw_pile, vec![spades(Face::Number(3))]);
    assert!(game.players.1.winnings_pile.is_empty());
    assert_eq!(game.stats.turn_number, 0);
}

#[test]
fn war_within_a_war_keeps_the_pot_growing() {
    let mut game = game_of(
        holding(vec![
            hearts(Face::Number(9)),
            hearts(Face::King),
            hearts(Face::Number(4)),
            hearts(Face::Number(2)),
        ]),
        holding(vec![
            spades(Face::Number(8)),
            spades(Face::Number(3)),
            spades(Face::Number(5)),
            spades(Face::Number(2)),
        ]),
    );
    let mut pot = (vec![hearts(Face::Ace)], vec![spades(Face::Ace)]);
    let mut events = Vec::new();
    resolve_war(&mut game, &mut pot, &mut events);
    assert_eq!(events.len(), 3);
    assert_war_start(&events[0], (hearts(Face::Ace), spades(Face::Ace)), 1);
    assert_war_start(&events[1], (hearts(Face::Number(2)), spades(Face::Number(2))), 2);
    assert_war_end(&events[2], 0, (hearts(Face::King), spades(Face::Number(3))));
    let stack0 = vec![hearts(Face::Ace), hearts(Face::Number(2)), hearts(Face::Number(4)), hearts(Face::King)];
    let stack1 = vec![spades(Face::Ace), spades(Face::Number(2)), spades(Face::Number(5)), spades(Face::Number(3))];
    assert_eq!(pot, (stack0.clone(), stack1.clone()));
    let won = game.players.0.winnings_pile.clone();
    assert!(won == joined(&stack0, &stack1) || won == joined(&stack1, &stack0));
    assert_eq!(game.players.0.draw_pile, vec![hearts(Face::Number(9))]);
    assert_eq!(game.players.1.draw_pile, vec![spades(Face::Number(8))]);
}

#[test]
fn war_cut_short_is_decided_by_the_last_cards_staked() {
    let mut game = game_of(
        holding(vec![hearts(Face::Number(5)), hearts(Face::Number(3))]),
        holding(vec![spades(Face::Number(9))]),
    );
    let mut pot = (vec![hearts(Face::Queen)], vec![spades(Face::Queen)]);
    let mut events = Vec::new();
    resolve_war(&mut game, &mut pot, &mut events);
    assert_eq!(events.len(), 3);
    assert_war_start(&events[0], (hearts(Face::Queen), spades(Face::Queen)), 13);
    assert_war_shortened(&events[1], 1, 1, 13);
    assert_war_end(&events[2], 1, (hearts(Face::Number(3)), spades(Face::Number(9))));
    assert_eq!(game.players.0.draw_pile, vec![hearts(Face::Number(5))]);
    assert_eq!(game.players.1.count_cards(), 4);
}

#[test]
fn war_between_two_last_cards_goes_to_player_one() {
    let mut game = game_of(holding(vec![]), holding(vec![]));
    let mut pot = (vec![hearts(Face::Ace)], vec![spades(Face::Ace)]);
    let mut events = Vec::new();
    resolve_war(&mut game, &mut pot, &mut events);
    assert_eq!(events.len(), 3);
    assert_war_start(&events[0], (hearts(Face::Ace), spades(Face::Ace)), 1);
    assert_war_shortened(&events[1], 0, 0, 1);
    assert_war_end(&events[2], 1, (hearts(Face::Ace), spades(Face::Ace)));
    assert!(game.players.0.is_dead());
    assert_eq!(game.players.1.count_cards(), 2);
}

#[test]
fn war_keeps_the_events_that_were_there() {
    let mut game = game_of(
        holding(vec![hearts(Face::Number(6))]),
        holding(vec![spades(Face::Number(9))]),
    );
    let mut pot = (vec![hearts(Face::Ace)], vec![spades(Face::Ace)]);
    let mut events = vec![Event::GameOver { winning_player_id: 5 }];
    resolve_war(&mut game, &mut pot, &mut events);
    assert_eq!(events.len(), 3);
    assert!(matches!(events[0], Event::GameOver { winning_player_id: 5 }));
    assert_war_start(&events[1], (hearts(Face::Ace), spades(Face::Ace)), 1);
    assert_war_end(&events[2], 1, (hearts(Face::Number(6)), spades(Face::Number(9))));
}

#[test]
fn war_pot_comes_in_both_orders() {
    let stack0 = vec![hearts(Face::Ace), hearts(Face::King)];
    let stack1 = vec![spades(Face::Ace), spades(Face::Number(7))];
    let mut zero_first = 0;
    let mut one_first = 0;
    for _ in 0..400 {
        let mut game = game_of(holding(vec![hearts(Face::King)]), holding(vec![spades(Face::Number(7))]));
        let mut pot = (vec![hearts(Face::Ace)], vec![spades(Face::Ace)]);
        let mut events = Vec::new();
        resolve_war(&mut game, &mut pot, &mut events);
        if game.players.0.winnings_pile == joined(&stack0, &stack1) {
            zero_first += 1;
        } else {
            assert_eq!(game.players.0.winnings_pile, joined(&stack1, &stack0));
            one_first += 1;
        }
    }
    assert!(zero_first > 100, "player 0's stack came first {} times", zero_first);
    assert!(one_first > 100, "player 1's stack came first {} times", one_first);
}
