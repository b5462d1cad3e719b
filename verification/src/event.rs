//! What a turn reports: battles, the stages of a war, and the end of the
//! game.

use vstd::prelude::*;
use crate::card::Card;
use crate::player::clone_cards;

verus! {

/// One thing that happened during a turn. Players are numbered 0 and 1.
#[derive(Debug)]
pub enum Event {
    /// A player has no card left; the other one has won the game.
    GameOver { winning_player_id: usize },
    /// Two cards of different faces met and the stronger one took the pot.
    ShortBattle { winning_player_id: usize, winning_card: Card, losing_card: Card, pot: Vec<Card> },
    /// Two cards of the same face met. `top_cards` are the tied cards,
    /// player 0's first, and `expected_length` the number of further cards
    /// that each side is to stake.
    WarStart { top_cards: (Card, Card), expected_length: usize },
    /// A player ran out of cards before the stakes were complete.
    WarShortened {
        player_id_with_insufficient_cards: usize,
        length_of_war_after_shortening: usize,
        initial_length_of_war: usize,
    },
    /// The war is decided. `final_top_cards` are the cards that were
    /// compared last, player 0's first.
    WarEnd { winning_player_id: usize, final_top_cards: (Card, Card) },
}

/// The mathematical value of an [`Event`].
pub enum EventView {
    GameOver { winning_player_id: nat },
    ShortBattle { winning_player_id: nat, winning_card: Card, losing_card: Card, pot: Seq<Card> },
    WarStart { top_cards: (Card, Card), expected_length: nat },
    WarShortened {
        player_id_with_insufficient_cards: nat,
        length_of_war_after_shortening: nat,
        initial_length_of_war: nat,
    },
    WarEnd { winning_player_id: nat, final_top_cards: (Card, Card) },
}

impl View for Event {
    type V = EventView;

    open spec fn view(&self) -> EventView {
        match *self {
            Event::GameOver { winning_player_id } => EventView::GameOver {
                winning_player_id: winning_player_id as nat,
            },
            Event::ShortBattle { winning_player_id, winning_card, losing_card, pot } => {
                EventView::ShortBattle {
                    winning_player_id: winning_player_id as nat,
                    winning_card,
                    losing_card,
                    pot: pot@,
                }
            },
            Event::WarStart { top_cards, expected_length } => EventView::WarStart {
                top_cards,
                expected_length: expected_length as nat,
            },
            Event::WarShortened {
                player_id_with_insufficient_cards,
                length_of_war_after_shortening,
                initial_length_of_war,
            } => EventView::WarShortened {
                player_id_with_insufficient_cards: player_id_with_insufficient_cards as nat,
                length_of_war_after_shortening: length_of_war_after_shortening as nat,
                initial_length_of_war: initial_length_of_war as nat,
            },
            Event::WarEnd { winning_player_id, final_top_cards } => EventView::WarEnd {
                winning_player_id: winning_player_id as nat,
                final_top_cards,
            },
        }
    }
}

impl Clone for Event {
    fn clone(&self) -> (copy: Self)
        ensures
            copy@ == self@,
    {
        match self {
            Event::GameOver { winning_player_id } => Event::GameOver {
                winning_player_id: *winning_player_id,
            },
            Event::ShortBattle { winning_player_id, winning_card, losing_card, pot } => {
                Event::ShortBattle {
                    winning_player_id: *winning_player_id,
                    winning_card: winning_card.clone(),
                    losing_card: losing_card.clone(),
                    pot: clone_cards(pot),
                }
            },
            Event::WarStart { top_cards, expected_length } => Event::WarStart {
                top_cards: (top_cards.0.clone(), top_cards.1.clone()),
                expected_length: *expected_length,
            },
            Event::WarShortened {
                player_id_with_insufficient_cards,
                length_of_war_after_shortening,
                initial_length_of_war,
            } => Event::WarShortened {
                player_id_with_insufficient_cards: *player_id_with_insufficient_cards,
                length_of_war_after_shortening: *length_of_war_after_shortening,
                initial_length_of_war: *initial_length_of_war,
            },
            Event::WarEnd { winning_player_id, final_top_cards } => Event::WarEnd {
                winning_player_id: *winning_player_id,
                final_top_cards: (final_top_cards.0.clone(), final_top_cards.1.clone()),
            },
        }
    }
}

/// The values of a sequence of events, in the same order.
pub open spec fn events_view(events: Seq<Event>) -> Seq<EventView> {
    Seq::new(events.len(), |i: int| events[i]@)
}

/// Appending an event appends its value.
pub proof fn lemma_events_view_push(events: Seq<Event>, event: Event)
    ensures
        events_view(events.push(event)) == events_view(events).push(event@),
{
    assert(events_view(events.push(event)) =~= events_view(events).push(event@));
}

} // verus!
