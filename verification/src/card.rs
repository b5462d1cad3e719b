//! Playing cards: a suit, a face, and the two rankings of a face.

use vstd::prelude::*;

verus! {

/// The suit of a card. It never takes part in a comparison.
#[derive(Debug, Clone, Copy, PartialEq, Eq, Structural)]
pub enum Suit {
    Hearts,
    Diamonds,
    Clubs,
    Spades,
}

/// The face of a card. A standard deck holds the numbers 2 to 10 and the
/// four named faces.
#[derive(Debug, Clone, Copy, PartialEq, Eq, Structural)]
pub enum Face {
    Number(u8),
    Jack,
    Queen,
    King,
    Ace,
}

impl Face {
    /// The rank by which two cards are compared: a number counts as itself,
    /// and the Ace is the highest face.
    pub open spec fn spec_measure_strength(&self) -> usize {
        match *self {
            Face::Number(n) => n as usize,
            Face::Jack => 11,
            Face::Queen => 12,
            Face::King => 13,
            Face::Ace => 14,
        }
    }

    /// The number of further cards that each side stakes in a war over this
    /// face. Here the Ace is the lowest face and the King the highest.
    pub open spec fn spec_war_length(&self) -> usize {
        match *self {
            Face::Number(n) => n as usize,
            Face::Ace => 1,
            Face::Jack => 12,
            Face::Queen => 13,
            Face::King => 14,
        }
    }

    /// Whether the face occurs in a standard deck.
    pub open spec fn spec_is_standard(&self) -> bool {
        match *self {
            Face::Number(n) => 2 <= n <= 10,
            _ => true,
        }
    }

    /// Whether the face occurs in a standard deck.
    #[verifier::when_used_as_spec(spec_is_standard)]
    pub fn is_standard(&self) -> (standard: bool)
        ensures
            standard == self.spec_is_standard(),
    {
        match *self {
            Face::Number(n) => 2 <= n && n <= 10,
            _ => true,
        }
    }

    /// The rank by which two cards are compared in a battle.
    #[verifier::when_used_as_spec(spec_measure_strength)]
    pub fn measure_strength(&self) -> (strength: usize)
        ensures
            strength == self.spec_measure_strength(),
    {
        match *self {
            Face::Number(a) => a as usize,
            Face::Jack => 11,
            Face::Queen => 12,
            Face::King => 13,
            Face::Ace => 14,
        }
    }

    /// The number of further cards that each side stakes in a war over
    /// this face.
    #[verifier::when_used_as_spec(spec_war_length)]
    pub fn war_length(&self) -> (length: usize)
        ensures
            length == self.spec_war_length(),
    {
        match *self {
            Face::Number(a) => a as usize,
            Face::Ace => 1,
            Face::Jack => 12,
            Face::Queen => 13,
            Face::King => 14,
        }
    }

    /// Two standard faces have the same strength only if they are the same
    /// face, and a war over a standard face stakes at least one card.
    pub proof fn lemma_standard_faces(a: Face, b: Face)
        requires
            a.is_standard(),
            b.is_standard(),
        ensures
            a.measure_strength() == b.measure_strength() <==> a == b,
            1 <= a.war_length() <= 14,
            2 <= a.measure_strength() <= 14,
    {
    }
}

/// A playing card. Its suit and face never change.
#[derive(Debug, PartialEq, Eq, Structural)]
pub struct Card {
    suit: Suit,
    face: Face,
}

impl Clone for Card {
    fn clone(&self) -> (card: Self)
        ensures
            card == *self,
    {
        Card { suit: self.suit, face: self.face }
    }
}

impl Card {
    /// The card of a suit and a face.
    pub closed spec fn spec_new(suit: Suit, face: Face) -> Card {
        Card { suit, face }
    }

    /// The suit of the card.
    pub closed spec fn spec_suit(&self) -> Suit {
        self.suit
    }

    /// The face of the card.
    pub closed spec fn spec_face(&self) -> Face {
        self.face
    }

    /// The card of a suit and a face.
    #[verifier::when_used_as_spec(spec_new)]
    pub fn new(suit: Suit, face: Face) -> (card: Self)
        ensures
            card == Card::spec_new(suit, face),
    {
        Card { suit, face }
    }

    /// The suit of the card.
    #[verifier::when_used_as_spec(spec_suit)]
    pub fn suit(&self) -> (suit: Suit)
        ensures
            suit == self.spec_suit(),
    {
        self.suit
    }

    /// The face of the card.
    #[verifier::when_used_as_spec(spec_face)]
    pub fn face(&self) -> (face: Face)
        ensures
            face == self.spec_face(),
    {
        self.face
    }

    /// A card is its suit and its face, and nothing more.
    pub broadcast proof fn lemma_card_parts(suit: Suit, face: Face)
        ensures
            (#[trigger] Card::spec_new(suit, face)).spec_suit() == suit,
            Card::spec_new(suit, face).spec_face() == face,
    {
    }

    /// Two cards of the same suit and face are the same card.
    pub proof fn lemma_card_equality(a: Card, b: Card)
        requires
            a.suit() == b.suit(),
            a.face() == b.face(),
        ensures
            a == b,
    {
    }
}

} // verus!
