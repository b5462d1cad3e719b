//! The standard deck of 52 cards, in its fixed order and shuffled.

use vstd::prelude::*;
use vstd::seq_lib::*;
use rand::rngs::ThreadRng;
use crate::card::{Card, Face, Suit};
use crate::player::all_standard;
use crate::random::shuffle_cards;

verus! {

/// The suits in the order of the standard deck.
pub open spec fn suit_at(i: int) -> Suit {
    if i == 0 {
        Suit::Clubs
    } else if i == 1 {
        Suit::Diamonds
    } else if i == 2 {
        Suit::Hearts
    } else {
        Suit::Spades
    }
}

/// The faces in the order in which each suit is laid out: the Ace, the
/// numbers 2 to 10, then Jack, Queen and King.
pub open spec fn face_at(i: int) -> Face {
    if i == 0 {
        Face::Ace
    } else if i <= 9 {
        Face::Number((i + 1) as u8)
    } else if i == 10 {
        Face::Jack
    } else if i == 11 {
        Face::Queen
    } else {
        Face::King
    }
}

/// The place of a suit in the standard deck.
pub open spec fn suit_index(suit: Suit) -> int {
    match suit {
        Suit::Clubs => 0,
        Suit::Diamonds => 1,
        Suit::Hearts => 2,
        Suit::Spades => 3,
    }
}

/// The place of a standard face within its suit.
pub open spec fn face_index(face: Face) -> int {
    match face {
        Face::Ace => 0,
        Face::Number(n) => n - 1,
        Face::Jack => 10,
        Face::Queen => 11,
        Face::King => 12,
    }
}

/// The standard deck: suit after suit, thirteen cards each.
pub open spec fn standard_deck() -> Seq<Card> {
    Seq::new(52, |i: int| Card::new(suit_at(i / 13), face_at(i % 13)))
}

/// The standard deck holds every card of a standard face exactly once, at
/// the place that its suit and face give, and no other card.
pub proof fn lemma_standard_deck()
    ensures
        standard_deck().len() == 52,
        standard_deck().no_duplicates(),
        all_standard(standard_deck()),
        forall|suit: Suit, face: Face|
            face.is_standard() ==> {
                &&& 0 <= 13 * suit_index(suit) + face_index(face) < 52
                &&& standard_deck()[13 * suit_index(suit) + face_index(face)] == #[trigger] Card::new(
                    suit,
                    face,
                )
            },
{
    broadcast use Card::lemma_card_parts;

    let deck = standard_deck();
    assert forall|i: int, j: int| 0 <= i < deck.len() && 0 <= j < deck.len() && i != j implies deck[i]
        != deck[j] by {
        assert(deck[i].suit() == suit_at(i / 13) && deck[i].face() == face_at(i % 13));
        assert(deck[j].suit() == suit_at(j / 13) && deck[j].face() == face_at(j % 13));
        assert(i / 13 != j / 13 || i % 13 != j % 13);
    }
    assert forall|i: int| 0 <= i < deck.len() implies (#[trigger] deck[i]).face().is_standard() by {
        assert(deck[i].face() == face_at(i % 13));
    }
    assert forall|suit: Suit, face: Face| face.is_standard() implies {
        &&& 0 <= 13 * suit_index(suit) + face_index(face) < 52
        &&& standard_deck()[13 * suit_index(suit) + face_index(face)] == #[trigger] Card::new(
            suit,
            face,
        )
    } by {
        let i = 13 * suit_index(suit) + face_index(face);
        assert(i / 13 == suit_index(suit) && i % 13 == face_index(face));
        assert(suit_at(suit_index(suit)) == suit);
        assert(face_at(face_index(face)) == face);
    }
}

/// Builds the standard deck in its fixed order: 52 cards, none of them
/// twice.
pub fn create_standard_deck() -> (deck: Vec<Card>)
    ensures
        deck@ == standard_deck(),
        deck@.len() == 52,
        deck@.no_duplicates(),
{
    let suits: [Suit; 4] = [Suit::Clubs, Suit::Diamonds, Suit::Hearts, Suit::Spades];
    let faces: [Face; 13] = [
        Face::Ace,
        Face::Number(2),
        Face::Number(3),
        Face::Number(4),
        Face::Number(5),
        Face::Number(6),
        Face::Number(7),
        Face::Number(8),
        Face::Number(9),
        Face::Number(10),
        Face::Jack,
        Face::Queen,
        Face::King,
    ];
    let mut deck: Vec<Card> = Vec::with_capacity(52);
    let mut s: usize = 0;
    while s < 4
        invariant
            s <= 4,
            forall|i: int| 0 <= i < 4 ==> suits@[i] == suit_at(i),
            forall|i: int| 0 <= i < 13 ==> faces@[i] == face_at(i),
            deck@ == standard_deck().take(13 * s),
        decreases 4 - s,
    {
        let mut f: usize = 0;
        while f < 13
            invariant
                s < 4,
                f <= 13,
                forall|i: int| 0 <= i < 4 ==> suits@[i] == suit_at(i),
                forall|i: int| 0 <= i < 13 ==> faces@[i] == face_at(i),
                deck@ == standard_deck().take(13 * s + f),
            decreases 13 - f,
        {
            let ghost i = 13 * s + f;
            assert(i / 13 == s && i % 13 == f);
            deck.push(Card::new(suits[s], faces[f]));
            assert(deck@ =~= standard_deck().take(i + 1));
            f = f + 1;
        }
        s = s + 1;
    }
    assert(standard_deck().take(52) =~= standard_deck());
    proof {
        lemma_standard_deck();
    }
    deck
}

/// A sequence that holds the same cards as the standard deck holds each of
/// its 52 cards exactly once.
pub proof fn lemma_shuffled_deck(deck: Seq<Card>)
    requires
        deck.to_multiset() == standard_deck().to_multiset(),
    ensures
        deck.len() == 52,
        deck.no_duplicates(),
        all_standard(deck),
        forall|card: Card| deck.contains(card) <==> standard_deck().contains(card),
{
    lemma_standard_deck();
    to_multiset_len(deck);
    to_multiset_len(standard_deck());
    standard_deck().lemma_multiset_has_no_duplicates();
    deck.lemma_multiset_has_no_duplicates_conv();
    assert forall|card: Card| deck.contains(card) <==> standard_deck().contains(card) by {
        to_multiset_contains(deck, card);
        to_multiset_contains(standard_deck(), card);
    }
    assert forall|i: int| 0 <= i < deck.len() implies (#[trigger] deck[i]).face().is_standard() by {
        assert(deck.contains(deck[i]));
        let j = choose|j: int| 0 <= j < 52 && standard_deck()[j] == deck[i];
        assert(standard_deck()[j].face().is_standard());
    }
}

/// Builds the standard deck and shuffles it: the same 52 cards, each once,
/// in an order that the generator decides.
pub fn create_shuffled_deck(rng: &mut ThreadRng) -> (deck: Vec<Card>)
    ensures
        deck@.to_multiset() == standard_deck().to_multiset(),
        deck@.len() == 52,
        deck@.no_duplicates(),
        all_standard(deck@),
        forall|card: Card| deck@.contains(card) <==> standard_deck().contains(card),
{
    let mut deck = create_standard_deck();
    shuffle_cards(&mut deck, rng);
    proof {
        lemma_shuffled_deck(deck@);
    }
    deck
}

} // verus!
