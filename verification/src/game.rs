//! The game: two players, a turn counter and a source of randomness.

use vstd::prelude::*;
use vstd::multiset::Multiset;
use vstd::seq_lib::*;
use vstd::string::StringExecFns;
use rand::rngs::ThreadRng;
use crate::card::{Card, Face};
use crate::deck::{create_shuffled_deck, standard_deck};
use crate::event::{events_view, lemma_events_view_push, Event, EventView};
use crate::player::{all_standard, Hand, Player};
use crate::random::{share_rng, shuffle_cards};
use crate::text::{decimal, push_decimal};
use crate::war::{merged_pot, resolve_war, short_battle, stronger, table_of, Table};

verus! {

/// The reports of the end of the game: one for each player who holds no
/// card, naming the other player as the winner.
pub open spec fn game_over_reports(hands: (Hand, Hand)) -> Seq<EventView> {
    let lost0 = if hands.0.is_dead() {
        seq![EventView::GameOver { winning_player_id: 1 }]
    } else {
        Seq::empty()
    };
    let lost1 = if hands.1.is_dead() {
        seq![EventView::GameOver { winning_player_id: 0 }]
    } else {
        Seq::empty()
    };
    lost0 + lost1
}

/// The table after each player has drawn the card of the turn and staked
/// it.
pub open spec fn opening(hands: (Hand, Hand)) -> Table {
    Table {
        hands: (hands.0.after_draw(), hands.1.after_draw()),
        stacks: (seq![hands.0.next_card().unwrap()], seq![hands.1.next_card().unwrap()]),
        events: Seq::empty(),
    }
}

/// One turn between two players who both hold a card: the hands and the
/// events after it. Each player draws a card. Cards of different faces
/// fight a short battle, cards of the same face a war. Then the end of the
/// game is reported for each player who is left without a card. The pot
/// goes to its winner with player 0's stake first if `player0_first`, and
/// with player 1's first otherwise.
pub open spec fn turn(hands: (Hand, Hand), player0_first: bool) -> Table {
    let table = opening(hands);
    let played = if table.is_tied() {
        table.after_war(player0_first)
    } else {
        table.after_battle(player0_first)
    };
    Table {
        hands: played.hands,
        stacks: played.stacks,
        events: played.events + game_over_reports(played.hands),
    }
}

/// Every second card of a deck, from the card at `first` on.
pub open spec fn every_second(deck: Seq<Card>, first: int) -> Seq<Card> {
    Seq::new(((deck.len() + 1 - first) / 2) as nat, |i: int| deck[2 * i + first])
}

/// The hands after a deck was dealt out card by card, the first card to
/// player 0: each card lies on top of those dealt before it, and nothing
/// is won yet.
pub open spec fn hands_dealt(deck: Seq<Card>) -> (Hand, Hand) {
    (
        Hand { draw: every_second(deck, 0), winnings: Seq::empty() },
        Hand { draw: every_second(deck, 1), winnings: Seq::empty() },
    )
}

/// Dealing hands every card of the deck to one of the two players, and
/// the two get the same number of cards, or player 0 one more.
pub proof fn lemma_deal(deck: Seq<Card>)
    ensures
        hands_dealt(deck).0.count() == (deck.len() + 1) / 2,
        hands_dealt(deck).1.count() == deck.len() / 2,
        hands_dealt(deck).0.cards().add(hands_dealt(deck).1.cards()) == deck.to_multiset(),
        all_standard(deck) ==> hands_dealt(deck).0.is_standard() && hands_dealt(
            deck,
        ).1.is_standard(),
    decreases deck.len(),
{
    broadcast use group_to_multiset_ensures;

    let hands = hands_dealt(deck);
    assert(Seq::<Card>::empty().to_multiset() =~= Multiset::empty());
    if deck.len() == 0 {
        assert(hands.0.draw =~= Seq::empty());
        assert(hands.1.draw =~= Seq::empty());
        assert(deck =~= Seq::empty());
        assert(hands.0.cards().add(hands.1.cards()) =~= deck.to_multiset());
    } else {
        let rest = deck.drop_last();
        let before = hands_dealt(rest);
        lemma_deal(rest);
        assert(deck == rest.push(deck.last()));
        if rest.len() % 2 == 0 {
            assert(hands.0.draw =~= before.0.draw.push(deck.last()));
            assert(hands.1.draw =~= before.1.draw);
        } else {
            assert(hands.0.draw =~= before.0.draw);
            assert(hands.1.draw =~= before.1.draw.push(deck.last()));
        }
        assert(hands.0.cards().add(hands.1.cards()) =~= before.0.cards().add(
            before.1.cards(),
        ).insert(deck.last()));
    }
}

/// The piles of a hand as text: the cards in the draw pile and in the
/// winnings pile, their sum, and the summed strength.
pub open spec fn hand_text(hand: Hand) -> Seq<char> {
    "["@ + decimal(hand.draw.len()) + ":"@ + decimal(hand.winnings.len()) + " cards, "@ + decimal(
        hand.count(),
    ) + " total, valued "@ + decimal(hand.strength()) + "]"@
}

/// A game in one line: the turn number and the two hands.
pub open spec fn game_text(turn_number: nat, hands: (Hand, Hand)) -> Seq<char> {
    "Game{ round "@ + decimal(turn_number) + " "@ + hand_text(hands.0) + ", "@ + hand_text(hands.1)
        + " }"@
}

/// Appends the text of a player's hand.
fn push_hand(text: &mut String, player: &Player)
    requires
        player@.count() <= usize::MAX,
        player@.strength() <= usize::MAX,
    ensures
        final(text)@ == old(text)@ + hand_text(player@),
{
    text.append("[");
    push_decimal(text, player.draw_pile.len());
    text.append(":");
    push_decimal(text, player.winnings_pile.len());
    text.append(" cards, ");
    push_decimal(text, player.count_cards());
    text.append(" total, valued ");
    push_decimal(text, player.measure_strength());
    text.append("]");
    assert(text@ =~= old(text)@ + hand_text(player@));
}

/// A sequence with the same cards as a pair is the pair in one of its two
/// orders.
proof fn lemma_pair_shuffled(pot: Seq<Card>, card0: Card, card1: Card)
    requires
        pot.to_multiset() == seq![card0, card1].to_multiset(),
    ensures
        pot == seq![card0, card1] || pot == seq![card1, card0],
{
    let pair = seq![card0, card1];
    to_multiset_len(pot);
    to_multiset_len(pair);
    assert(pot.len() == 2);
    assert(pair[0] == card0 && pair[1] == card1);
    to_multiset_contains(pair, card0);
    to_multiset_contains(pot, card0);
    to_multiset_contains(pair, card1);
    to_multiset_contains(pot, card1);
    to_multiset_contains(pair, pot[0]);
    to_multiset_contains(pot, pot[0]);
    to_multiset_contains(pair, pot[1]);
    to_multiset_contains(pot, pot[1]);
    assert(pot.contains(pot[0]) && pot.contains(pot[1]));
    assert(pot.contains(card0) && pot.contains(card1));
    if pot[0] == card0 {
        assert(pot =~= seq![card0, card1]);
    } else {
        assert(pot =~= seq![card1, card0]);
    }
}

/// Counters kept over a game.
#[derive(Debug)]
pub struct Stats {
    /// The number of turns played so far.
    pub turn_number: usize,
}

impl Clone for Stats {
    fn clone(&self) -> (copy: Self)
        ensures
            copy == *self,
    {
        Stats { turn_number: self.turn_number }
    }
}

/// A game of War between player 0 and player 1.
#[derive(Debug)]
pub struct Game {
    pub players: (Player, Player),
    pub stats: Stats,
    /// Decides the order of the cards in a pot, and nothing else.
    pub rng: ThreadRng,
}

impl Clone for Game {
    fn clone(&self) -> (copy: Self)
        ensures
            copy.players.0@ == self.players.0@,
            copy.players.1@ == self.players.1@,
            copy.stats == self.stats,
    {
        Game {
            players: (self.players.0.clone(), self.players.1.clone()),
            stats: self.stats.clone(),
            rng: share_rng(&self.rng),
        }
    }
}

impl Game {
    /// A game can be played on when every card in it has a face of the
    /// standard deck.
    pub open spec fn wf(&self) -> bool {
        self.players.0@.is_standard() && self.players.1@.is_standard()
    }

    /// The number of cards that the two players hold together.
    pub open spec fn total_cards(&self) -> nat {
        self.players.0@.count() + self.players.1@.count()
    }

    /// The cards that the two players hold together, without their order.
    pub open spec fn cards(&self) -> Multiset<Card> {
        self.players.0@.cards().add(self.players.1@.cards())
    }

    /// The game is over once a player holds no card.
    pub open spec fn is_over(&self) -> bool {
        self.players.0@.is_dead() || self.players.1@.is_dead()
    }

    /// The hands of the two players.
    pub open spec fn hands(&self) -> (Hand, Hand) {
        (self.players.0@, self.players.1@)
    }

    /// Whether every card in the game has a face of the standard deck.
    pub fn is_well_formed(&self) -> (well_formed: bool)
        ensures
            well_formed == self.wf(),
    {
        self.players.0.is_standard() && self.players.1.is_standard()
    }

    /// The state of the game in one line.
    pub fn short_print(&self) -> (text: String)
        requires
            self.players.0@.count() <= usize::MAX,
            self.players.0@.strength() <= usize::MAX,
            self.players.1@.count() <= usize::MAX,
            self.players.1@.strength() <= usize::MAX,
        ensures
            text@ == game_text(self.stats.turn_number as nat, self.hands()),
    {
        let mut text = String::new();
        text.append("Game{ round ");
        push_decimal(&mut text, self.stats.turn_number);
        text.append(" ");
        push_hand(&mut text, &self.players.0);
        text.append(", ");
        push_hand(&mut text, &self.players.1);
        text.append(" }");
        assert(text@ =~= game_text(self.stats.turn_number as nat, self.hands()));
        text
    }

    /// Deals a deck out card by card, the first card to player 0, and
    /// starts the turn counter at zero.
    pub fn deal(deck: Vec<Card>, rng: ThreadRng) -> (game: Game)
        ensures
            game.hands() == hands_dealt(deck@),
            game.stats.turn_number == 0,
    {
        let mut player0 = Player { draw_pile: Vec::new(), winnings_pile: Vec::new() };
        let mut player1 = Player { draw_pile: Vec::new(), winnings_pile: Vec::new() };
        let mut num: usize = 0;
        while num < deck.len()
            invariant
                num <= deck.len(),
                player0@ == hands_dealt(deck@.take(num as int)).0,
                player1@ == hands_dealt(deck@.take(num as int)).1,
            decreases deck.len() - num,
        {
            let ghost after = deck@.take(num + 1);
            if num % 2 == 0 {
                player0.draw_pile.push(deck[num].clone());
            } else {
                player1.draw_pile.push(deck[num].clone());
            }
            num = num + 1;
            assert(player0@ =~= hands_dealt(after).0);
            assert(player1@ =~= hands_dealt(after).1);
        }
        assert(deck@.take(num as int) == deck@);
        Game { players: (player0, player1), stats: Stats { turn_number: 0 }, rng }
    }

    /// A new game: the standard deck, shuffled by the thread's generator
    /// and dealt out, 26 cards to each player.
    pub fn new() -> (game: Game)
        ensures
            exists|deck: Seq<Card>|
                deck.to_multiset() == standard_deck().to_multiset() && game.hands()
                    == #[trigger] hands_dealt(deck),
            game.cards() == standard_deck().to_multiset(),
            game.players.0@.count() == 26,
            game.players.1@.count() == 26,
            game.total_cards() == 52,
            game.stats.turn_number == 0,
            game.wf(),
    {
        let mut rng = rand::thread_rng();
        let deck = create_shuffled_deck(&mut rng);
        proof {
            lemma_deal(deck@);
        }
        Game::deal(deck, rng)
    }

    /// Plays one turn. A game that is over stays as it is and `None` is
    /// returned. Otherwise the turn counter goes up by one and the events of
    /// the turn are returned, in the order in which they happened; the
    /// generator decides which player's stake lies first in the pot.
    pub fn step(&mut self) -> (events: Option<Vec<Event>>)
        requires
            !old(self).is_over() ==> old(self).wf() && old(self).stats.turn_number < usize::MAX,
        ensures
            old(self).is_over() ==> events is None && *final(self) == *old(self),
            !old(self).is_over() ==> {
                &&& events is Some
                &&& final(self).stats.turn_number == old(self).stats.turn_number + 1
                &&& final(self).wf()
                &&& {
                    ||| {
                        &&& final(self).hands() == turn(old(self).hands(), true).hands
                        &&& events_view(events.unwrap()@) == turn(old(self).hands(), true).events
                    }
                    ||| {
                        &&& final(self).hands() == turn(old(self).hands(), false).hands
                        &&& events_view(events.unwrap()@) == turn(old(self).hands(), false).events
                    }
                }
            },
            final(self).total_cards() == old(self).total_cards(),
            final(self).cards() == old(self).cards(),
    {
        if self.players.0.is_dead() || self.players.1.is_dead() {
            return None;
        }
        let ghost hands = self.hands();
        proof {
            hands.0.lemma_draw();
            hands.1.lemma_draw();
            lemma_turn(hands, true);
            lemma_turn(hands, false);
        }
        self.stats.turn_number = self.stats.turn_number + 1;
        let mut events: Vec<Event> = Vec::new();
        let drawn0 = self.players.0.draw();
        let drawn1 = self.players.1.draw();
        match (drawn0, drawn1) {
            (Some(card0), Some(card1)) => {
                if card0.face() != card1.face() {
                    let mut pot: Vec<Card> = Vec::new();
                    pot.push(card0.clone());
                    pot.push(card1.clone());
                    assert(pot@ =~= seq![card0, card1]);
                    shuffle_cards(&mut pot, &mut self.rng);
                    proof {
                        lemma_pair_shuffled(pot@, card0, card1);
                        Face::lemma_standard_faces(card0.face(), card1.face());
                        assert(merged_pot(opening(hands).stacks, true) =~= seq![card0, card1]);
                        assert(merged_pot(opening(hands).stacks, false) =~= seq![card1, card0]);
                    }
                    let battle = short_battle(&mut self.players, card0, card1, pot);
                    proof {
                        lemma_events_view_push(events@, battle);
                    }
                    events.push(battle);
                } else {
                    let mut stake0: Vec<Card> = Vec::new();
                    stake0.push(card0);
                    let mut stake1: Vec<Card> = Vec::new();
                    stake1.push(card1);
                    let mut pot = (stake0, stake1);
                    assert(table_of(self.players, pot, events) =~= opening(hands));
                    resolve_war(self, &mut pot, &mut events);
                }
            },
            _ => {},
        }
        let ghost played = events_view(events@);
        if self.players.0.is_dead() {
            proof {
                lemma_events_view_push(events@, Event::GameOver { winning_player_id: 1 });
            }
            events.push(Event::GameOver { winning_player_id: 1 });
        }
        if self.players.1.is_dead() {
            proof {
                lemma_events_view_push(events@, Event::GameOver { winning_player_id: 0 });
            }
            events.push(Event::GameOver { winning_player_id: 0 });
        }
        assert(events_view(events@) =~= played + game_over_reports(self.hands()));
        Some(events)
    }
}

/// A turn between standard cards loses no card and makes none, keeps the
/// cards standard, and leaves at least one player with a card.
pub proof fn lemma_turn(hands: (Hand, Hand), player0_first: bool)
    requires
        !hands.0.is_dead(),
        !hands.1.is_dead(),
        hands.0.is_standard(),
        hands.1.is_standard(),
    ensures
        ({
            let after = turn(hands, player0_first).hands;
            &&& after.0.cards().add(after.1.cards()) == hands.0.cards().add(hands.1.cards())
            &&& after.0.count() + after.1.count() == hands.0.count() + hands.1.count()
            &&& after.0.is_standard()
            &&& after.1.is_standard()
            &&& !(after.0.is_dead() && after.1.is_dead())
        }),
{
    broadcast use group_to_multiset_ensures;

    let table = opening(hands);
    hands.0.lemma_draw();
    hands.1.lemma_draw();
    let card0 = hands.0.next_card().unwrap();
    let card1 = hands.1.next_card().unwrap();
    assert(seq![card0] =~= Seq::empty().push(card0));
    assert(seq![card1] =~= Seq::empty().push(card1));
    assert(Seq::<Card>::empty().to_multiset() =~= Multiset::empty());
    assert(table.cards() =~= hands.0.cards().add(hands.1.cards()));
    if table.is_tied() {
        table.lemma_war(player0_first);
    } else {
        Face::lemma_standard_faces(card0.face(), card1.face());
        table.lemma_award(stronger(table.top_cards()).unwrap(), player0_first);
    }
}

/// A short battle moves exactly the two cards drawn: they make up the pot,
/// in one order or the other, the pot goes on top of the winnings pile of
/// the player who drew the stronger card, and the other player only loses
/// the card drawn.
pub proof fn lemma_short_battle(hands: (Hand, Hand), player0_first: bool)
    requires
        !hands.0.is_dead(),
        !hands.1.is_dead(),
        hands.0.is_standard(),
        hands.1.is_standard(),
        !opening(hands).is_tied(),
    ensures
        ({
            let cards = opening(hands).top_cards();
            let winner = stronger(cards).unwrap();
            let after = turn(hands, player0_first);
            let pot = if player0_first {
                seq![cards.0, cards.1]
            } else {
                seq![cards.1, cards.0]
            };
            &&& cards == (hands.0.next_card().unwrap(), hands.1.next_card().unwrap())
            &&& stronger(cards) is Some
            &&& pot.len() == 2
            &&& pot.to_multiset() == Multiset::empty().insert(cards.0).insert(cards.1)
            &&& after.events[0] == EventView::ShortBattle {
                winning_player_id: winner,
                winning_card: if winner == 0 {
                    cards.0
                } else {
                    cards.1
                },
                losing_card: if winner == 0 {
                    cards.1
                } else {
                    cards.0
                },
                pot,
            }
            &&& winner == 0 ==> after.hands.0 == hands.0.after_draw().capture(pot) && after.hands.1
                == hands.1.after_draw()
            &&& winner == 1 ==> after.hands.1 == hands.1.after_draw().capture(pot) && after.hands.0
                == hands.0.after_draw()
            &&& after.hands.0.count() + after.hands.1.count() == hands.0.count() + hands.1.count()
        }),
{
    broadcast use group_to_multiset_ensures;

    let table = opening(hands);
    let cards = table.top_cards();
    hands.0.lemma_draw();
    hands.1.lemma_draw();
    Face::lemma_standard_faces(cards.0.face(), cards.1.face());
    assert(merged_pot(table.stacks, true) =~= seq![cards.0, cards.1]);
    assert(merged_pot(table.stacks, false) =~= seq![cards.1, cards.0]);
    assert(seq![cards.0, cards.1] =~= Seq::empty().push(cards.0).push(cards.1));
    assert(seq![cards.1, cards.0] =~= Seq::empty().push(cards.1).push(cards.0));
    assert(Seq::<Card>::empty().to_multiset() =~= Multiset::empty());
    assert(Multiset::empty().insert(cards.1).insert(cards.0) =~= Multiset::empty().insert(
        cards.0,
    ).insert(cards.1));
}

/// The game ends for one player at most. After a turn between standard
/// cards a player without a card is reported as the loser in the last
/// event of the turn, which is the only such report, and the winner holds
/// every card of the game.
pub proof fn lemma_game_over(hands: (Hand, Hand), player0_first: bool)
    requires
        !hands.0.is_dead(),
        !hands.1.is_dead(),
        hands.0.is_standard(),
        hands.1.is_standard(),
    ensures
        ({
            let after = turn(hands, player0_first);
            let reports = game_over_reports(after.hands);
            let total = hands.0.count() + hands.1.count();
            &&& reports.len() <= 1
            &&& after.hands.0.is_dead() ==> after.hands.1.count() == total && after.events.last()
                == EventView::GameOver { winning_player_id: 1 }
            &&& after.hands.1.is_dead() ==> after.hands.0.count() == total && after.events.last()
                == EventView::GameOver { winning_player_id: 0 }
            &&& !after.hands.0.is_dead() && !after.hands.1.is_dead() ==> reports.len() == 0
        }),
{
    lemma_turn(hands, player0_first);
}

} // verus!
