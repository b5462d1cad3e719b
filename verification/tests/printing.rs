use war_game::text::push_decimal;
use war_game::{Card, Face, Game, Player, Stats, Suit};

fn decimal(n: usize) -> String {
    let mut text = String::new();
    push_decimal(&mut text, n);
    text
}

#[test]
fn decimal_of_single_digits() {
    let digits = ["0", "1", "2", "3", "4", "5", "6", "7", "8", "9"];
    for (n, digit) in digits.iter().enumerate() {
        assert_eq!(decimal(n), *digit);
    }
}

#[test]
fn decimal_of_longer_numbers() {
    assert_eq!(decimal(10), "10");
    assert_eq!(decimal(52), "52");
    assert_eq!(decimal(100), "100");
    assert_eq!(decimal(1009), "1009");
    assert_eq!(decimal(1234567890), "1234567890");
    assert_eq!(decimal(usize::MAX), format!("{}", usize::MAX));
}

#[test]
fn decimal_is_appended_to_what_is_there() {
    let mut text = String::from("turn ");
    push_decimal(&mut text, 407);
    assert_eq!(text, "turn 407");
}

#[test]
fn short_print_of_an_empty_game() {
    let game = Game {
        players: (
            Player { draw_pile: vec![], winnings_pile: vec![] },
            Player { draw_pile: vec![], winnings_pile: vec![] },
        ),
        stats: Stats { turn_number: 0 },
        rng: rand::thread_rng(),
    };
    assert_eq!(
        game.short_print(),
        "Game{ round 0 [0:0 cards, 0 total, valued 0], [0:0 cards, 0 total, valued 0] }"
    );
}

#[test]
fn short_print_of_a_game_under_way() {
    let game = Game {
        players: (
            Player {
                draw_pile: vec![Card::new(Suit::Hearts, Face::King)],
                winnings_pile: vec![
                    Card::new(Suit::Clubs, Face::Number(2)),
                    Card::new(Suit::Diamonds, Face::Ace),
                ],
            },
            Player {
                draw_pile: vec![
                    Card::new(Suit::Spades, Face::Number(10)),
                    Card::new(Suit::Spades, Face::Jack),
                ],
                winnings_pile: vec![],
            },
        ),
        stats: Stats { turn_number: 117 },
        rng: rand::thread_rng(),
    };
    assert_eq!(
        game.short_print(),
        "Game{ round 117 [1:2 cards, 3 total, valued 29], [2:0 cards, 2 total, valued 21] }"
    );
}

#[test]
fn short_print_of_a_new_game() {
    let game = Game::new();
    let text = game.short_print();
    assert!(text.starts_with("Game{ round 0 [26:0 cards, 26 total, valued "));
    assert!(text.ends_with(" }"));
    let strength0 = game.players.0.measure_strength();
    let strength1 = game.players.1.measure_strength();
    assert_eq!(strength0 + strength1, 416);
    assert_eq!(
        text,
        format!(
            "Game{{ round 0 [26:0 cards, 26 total, valued {}], [26:0 cards, 26 total, valued {}] }}",
            strength0, strength1
        )
    );
}
