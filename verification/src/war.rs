//! How the cards on the table are won: a short battle between two cards of
//! different faces, and a war, round by round, between two cards of the
//! same face.

use vstd::prelude::*;
use vstd::multiset::Multiset;
use vstd::seq_lib::*;
use crate::card::{Card, Face};
use crate::event::{events_view, lemma_events_view_push, Event, EventView};
use crate::game::Game;
use crate::player::{all_standard, Hand, Player};
use crate::random::flip_coin;

verus! {

/// The two stacks of a pot as one sequence: player 0's stack first, or
/// player 1's.
pub open spec fn merged_pot(stacks: (Seq<Card>, Seq<Card>), player0_first: bool) -> Seq<Card> {
    if player0_first {
        stacks.0 + stacks.1
    } else {
        stacks.1 + stacks.0
    }
}

/// The owner of the stronger of two cards, or `None` when they are equally
/// strong.
pub open spec fn stronger(cards: (Card, Card)) -> Option<nat> {
    if cards.0.face().measure_strength() > cards.1.face().measure_strength() {
        Some(0)
    } else if cards.0.face().measure_strength() < cards.1.face().measure_strength() {
        Some(1)
    } else {
        None
    }
}

/// The two hands after `winner` has taken `pot`.
pub open spec fn awarded(hands: (Hand, Hand), winner: nat, pot: Seq<Card>) -> (Hand, Hand) {
    if winner == 0 {
        (hands.0.capture(pot), hands.1)
    } else {
        (hands.0, hands.1.capture(pot))
    }
}

/// The report of a short battle between player 0's card `cards.0` and
/// player 1's card `cards.1`, won by `winner`.
pub open spec fn battle_report(cards: (Card, Card), winner: nat, pot: Seq<Card>) -> EventView {
    EventView::ShortBattle {
        winning_player_id: winner,
        winning_card: if winner == 0 {
            cards.0
        } else {
            cards.1
        },
        losing_card: if winner == 0 {
            cards.1
        } else {
            cards.0
        },
        pot,
    }
}

/// Who wins a war once the stakes of a round lie on the table, by the hands
/// and the top cards of the two stacks: the owner of the stronger card;
/// between equally strong cards the player who still holds cards when the
/// other holds none, and player 1 when neither holds any. `None` when the
/// cards are equally strong and both players can go on: the war takes
/// another round.
pub open spec fn war_winner(hands: (Hand, Hand), top_cards: (Card, Card)) -> Option<nat> {
    match stronger(top_cards) {
        Some(winner) => Some(winner),
        None => if !hands.0.is_dead() && !hands.1.is_dead() {
            None
        } else if hands.0.is_dead() {
            Some(1)
        } else {
            Some(0)
        },
    }
}

/// The report of the end of a war that `winner` has won, with the cards
/// that were compared last.
pub open spec fn war_report(top_cards: (Card, Card), winner: nat) -> EventView {
    EventView::WarEnd { winning_player_id: winner, final_top_cards: top_cards }
}

/// A turn in progress: what the players hold, the stack of cards that each
/// has staked (the last of a stack is its top card), and the events so far.
#[verifier::ext_equal]
pub struct Table {
    pub hands: (Hand, Hand),
    pub stacks: (Seq<Card>, Seq<Card>),
    pub events: Seq<EventView>,
}

impl Table {
    /// The top cards of the two stacks.
    pub open spec fn top_cards(self) -> (Card, Card) {
        (self.stacks.0.last(), self.stacks.1.last())
    }

    /// Whether both stacks hold a card and the top cards have the same
    /// face, as they do when a round of war begins.
    pub open spec fn is_tied(self) -> bool {
        &&& self.stacks.0.len() > 0
        &&& self.stacks.1.len() > 0
        &&& self.top_cards().0.face() == self.top_cards().1.face()
    }

    /// Whether every card, held or staked, has a face of the standard deck.
    pub open spec fn is_standard(self) -> bool {
        &&& self.hands.0.is_standard()
        &&& self.hands.1.is_standard()
        &&& all_standard(self.stacks.0)
        &&& all_standard(self.stacks.1)
    }

    /// All cards, held or staked, without their order.
    pub open spec fn cards(self) -> Multiset<Card> {
        self.hands.0.cards().add(self.hands.1.cards()).add(self.stacks.0.to_multiset()).add(
            self.stacks.1.to_multiset(),
        )
    }

    /// The table after a short battle: the owner of the stronger top card
    /// takes the pot. Between equally strong cards there is no battle.
    pub open spec fn after_battle(self, player0_first: bool) -> Table {
        match stronger(self.top_cards()) {
            Some(winner) => {
                let pot = merged_pot(self.stacks, player0_first);
                Table {
                    hands: awarded(self.hands, winner, pot),
                    stacks: self.stacks,
                    events: self.events.push(battle_report(self.top_cards(), winner, pot)),
                }
            },
            None => self,
        }
    }

    /// The number of further cards that each side is to stake in the round
    /// of war that begins now.
    pub open spec fn expected_length(self) -> nat {
        self.top_cards().0.face().war_length() as nat
    }

    /// The number of further cards that each side does stake in this round:
    /// the expected number, or as many as the poorer player has.
    pub open spec fn round_length(self) -> nat {
        let expected = self.expected_length();
        let held0 = self.hands.0.count();
        let held1 = self.hands.1.count();
        if expected <= held0 && expected <= held1 {
            expected
        } else if held0 <= held1 {
            held0
        } else {
            held1
        }
    }

    /// The table after the stakes of one round of war were drawn: the war
    /// is announced, each side draws `round_length` cards onto its stack,
    /// and a round cut short is reported with the player who ran out
    /// (player 0 where both did).
    pub open spec fn after_round(self) -> Table {
        let expected = self.expected_length();
        let length = self.round_length();
        let announced = self.events.push(
            EventView::WarStart { top_cards: self.top_cards(), expected_length: expected },
        );
        Table {
            hands: (self.hands.0.after_draws(length), self.hands.1.after_draws(length)),
            stacks: (
                self.stacks.0 + self.hands.0.drawn(length),
                self.stacks.1 + self.hands.1.drawn(length),
            ),
            events: if length < expected {
                announced.push(
                    EventView::WarShortened {
                        player_id_with_insufficient_cards: if self.hands.0.count() == length {
                            0
                        } else {
                            1
                        },
                        length_of_war_after_shortening: length,
                        initial_length_of_war: expected,
                    },
                )
            } else {
                announced
            },
        }
    }

    /// Who wins the war once the stakes of a round lie on the table, or
    /// `None` when the war takes another round.
    pub open spec fn war_winner(self) -> Option<nat> {
        war_winner(self.hands, self.top_cards())
    }

    /// The table after `winner` has taken the pot of a war.
    pub open spec fn after_war_end(self, winner: nat, player0_first: bool) -> Table {
        Table {
            hands: awarded(self.hands, winner, merged_pot(self.stacks, player0_first)),
            stacks: self.stacks,
            events: self.events.push(war_report(self.top_cards(), winner)),
        }
    }

    /// The table after a whole war: round after round until there is a
    /// winner, who takes both stacks in the order that `player0_first`
    /// gives. A round in which no card was staked cannot lead to another:
    /// the war stops there. This does not happen with standard cards.
    pub open spec fn after_war(self, player0_first: bool) -> Table
        decreases self.hands.0.count() + self.hands.1.count(),
        via Self::war_goes_on
    {
        let staked = self.after_round();
        match staked.war_winner() {
            Some(winner) => staked.after_war_end(winner, player0_first),
            None => if self.round_length() > 0 {
                staked.after_war(player0_first)
            } else {
                staked
            },
        }
    }

    #[via_fn]
    proof fn war_goes_on(self, player0_first: bool) {
        self.hands.0.lemma_draws(self.round_length());
        self.hands.1.lemma_draws(self.round_length());
    }

    /// The stakes of a round come out of the hands: each side stakes
    /// `round_length` cards, no card is lost or made, and standard cards
    /// stay standard. Where both players hold a card and the cards are
    /// standard, at least one card is staked.
    pub proof fn lemma_round(self)
        requires
            self.is_tied(),
        ensures
            self.after_round().hands.0.count() == self.hands.0.count() - self.round_length(),
            self.after_round().hands.1.count() == self.hands.1.count() - self.round_length(),
            self.after_round().stacks.0.len() == self.stacks.0.len() + self.round_length(),
            self.after_round().stacks.1.len() == self.stacks.1.len() + self.round_length(),
            self.after_round().cards() == self.cards(),
            self.is_standard() ==> self.after_round().is_standard(),
            self.is_standard() && !self.hands.0.is_dead() && !self.hands.1.is_dead()
                ==> self.round_length() > 0,
    {
        let length = self.round_length();
        let staked = self.after_round();
        self.hands.0.lemma_draws(length);
        self.hands.1.lemma_draws(length);
        lemma_multiset_commutative(self.stacks.0, self.hands.0.drawn(length));
        lemma_multiset_commutative(self.stacks.1, self.hands.1.drawn(length));
        assert(staked.cards() =~= self.cards());
        if self.is_standard() {
            Face::lemma_standard_faces(self.top_cards().0.face(), self.top_cards().1.face());
        }
    }

    /// Where both players hold as many cards as the war asks for, each
    /// stakes exactly that many beyond the tied card, and the round is not
    /// reported as cut short.
    pub proof fn lemma_round_in_full(self)
        requires
            self.is_tied(),
            self.expected_length() <= self.hands.0.count(),
            self.expected_length() <= self.hands.1.count(),
        ensures
            self.after_round().stacks.0.len() == self.stacks.0.len() + self.expected_length(),
            self.after_round().stacks.1.len() == self.stacks.1.len() + self.expected_length(),
            self.after_round().hands.0.count() == self.hands.0.count() - self.expected_length(),
            self.after_round().hands.1.count() == self.hands.1.count() - self.expected_length(),
            self.after_round().events == self.events.push(
                EventView::WarStart {
                    top_cards: self.top_cards(),
                    expected_length: self.expected_length(),
                },
            ),
    {
        self.lemma_round();
    }

    /// A round is reported as cut short if and only if a player holds fewer
    /// cards than the war asks for. The report then follows the start of
    /// the war as the last event of the round; it names the player with
    /// the fewer cards, who is left with none (player 0 where both are), and
    /// gives the number of cards that each side did stake in the round.
    pub proof fn lemma_round_cut_short(self)
        requires
            self.is_tied(),
        ensures
            ({
                let expected = self.expected_length();
                let short = self.hands.0.count() < expected || self.hands.1.count() < expected;
                let player: nat = if self.hands.0.count() <= self.hands.1.count() {
                    0
                } else {
                    1
                };
                let length = if player == 0 {
                    self.hands.0.count()
                } else {
                    self.hands.1.count()
                };
                let announced = self.events.push(
                    EventView::WarStart { top_cards: self.top_cards(), expected_length: expected },
                );
                let staked = self.after_round();
                &&& !short ==> staked.events == announced
                &&& short ==> {
                    &&& staked.events == announced.push(
                        EventView::WarShortened {
                            player_id_with_insufficient_cards: player,
                            length_of_war_after_shortening: length,
                            initial_length_of_war: expected,
                        },
                    )
                    &&& length < expected
                    &&& staked.stacks.0.len() == self.stacks.0.len() + length
                    &&& staked.stacks.1.len() == self.stacks.1.len() + length
                    &&& player == 0 ==> staked.hands.0.is_dead()
                    &&& player == 1 ==> staked.hands.1.is_dead()
                }
            }),
    {
        self.lemma_round();
    }

    /// The winner of a pot holds it afterwards: the two hands then hold
    /// every card that was held or staked before.
    pub proof fn lemma_award(self, winner: nat, player0_first: bool)
        ensures
            ({
                let hands = awarded(self.hands, winner, merged_pot(self.stacks, player0_first));
                &&& hands.0.cards().add(hands.1.cards()) == self.cards()
                &&& hands.0.count() + hands.1.count() == self.hands.0.count()
                    + self.hands.1.count() + self.stacks.0.len() + self.stacks.1.len()
                &&& self.is_standard() ==> hands.0.is_standard() && hands.1.is_standard()
            }),
    {
        let pot = merged_pot(self.stacks, player0_first);
        let hands = awarded(self.hands, winner, pot);
        lemma_multiset_commutative(self.stacks.0, self.stacks.1);
        lemma_multiset_commutative(self.stacks.1, self.stacks.0);
        self.hands.0.lemma_capture(pot);
        self.hands.1.lemma_capture(pot);
        assert(hands.0.cards().add(hands.1.cards()) =~= self.cards());
    }

    /// A war between standard cards ends with every card, held or staked,
    /// in one of the two hands, so that at least one player holds a card.
    pub proof fn lemma_war(self, player0_first: bool)
        requires
            self.is_tied(),
            self.is_standard(),
        ensures
            ({
                let hands = self.after_war(player0_first).hands;
                &&& hands.0.cards().add(hands.1.cards()) == self.cards()
                &&& hands.0.count() + hands.1.count() == self.hands.0.count()
                    + self.hands.1.count() + self.stacks.0.len() + self.stacks.1.len()
                &&& hands.0.is_standard()
                &&& hands.1.is_standard()
                &&& !(hands.0.is_dead() && hands.1.is_dead())
            }),
        decreases self.hands.0.count() + self.hands.1.count(),
    {
        let staked = self.after_round();
        self.lemma_round();
        match staked.war_winner() {
            Some(winner) => {
                staked.lemma_award(winner, player0_first);
            },
            None => {
                Face::lemma_standard_faces(
                    staked.top_cards().0.face(),
                    staked.top_cards().1.face(),
                );
                staked.lemma_war(player0_first);
            },
        }
    }
}

/// The values of the players, their stakes and the events as one table.
pub open spec fn table_of(
    players: (Player, Player),
    pot: (Vec<Card>, Vec<Card>),
    events: Vec<Event>,
) -> Table {
    Table {
        hands: (players.0@, players.1@),
        stacks: (pot.0@, pot.1@),
        events: events_view(events@),
    }
}

/// Settles a short battle between `card0`, drawn by player 0, and `card1`,
/// drawn by player 1: the owner of the stronger card puts `pot` on the
/// winnings pile. The cards must differ in strength.
pub fn short_battle(
    players: &mut (Player, Player),
    card0: Card,
    card1: Card,
    pot: Vec<Card>,
) -> (event: Event)
    requires
        stronger((card0, card1)) is Some,
    ensures
        event@ == battle_report((card0, card1), stronger((card0, card1)).unwrap(), pot@),
        (final(players).0@, final(players).1@) == awarded(
            (old(players).0@, old(players).1@),
            stronger((card0, card1)).unwrap(),
            pot@,
        ),
{
    if card0.face().measure_strength() < card1.face().measure_strength() {
        players.1.capture(&pot);
        Event::ShortBattle { winning_player_id: 1, winning_card: card1, losing_card: card0, pot }
    } else {
        players.0.capture(&pot);
        Event::ShortBattle { winning_player_id: 0, winning_card: card0, losing_card: card1, pot }
    }
}

/// Plays the stakes of one round of war: reports the start of the war, lets
/// each player draw onto the stack until the expected number is reached or
/// a player has no card left, and reports a round cut short. The stacks must
/// hold the tied cards on top.
pub fn war_round(
    players: &mut (Player, Player),
    pot: &mut (Vec<Card>, Vec<Card>),
    events: &mut Vec<Event>,
)
    requires
        table_of(*old(players), *old(pot), *old(events)).is_tied(),
    ensures
        table_of(*final(players), *final(pot), *final(events)) == table_of(
            *old(players),
            *old(pot),
            *old(events),
        ).after_round(),
{
    let ghost before = table_of(*players, *pot, *events);
    let top0 = pot.0[pot.0.len() - 1].clone();
    let top1 = pot.1[pot.1.len() - 1].clone();
    let expected_length = top0.face().war_length();
    proof {
        lemma_events_view_push(
            events@,
            Event::WarStart { top_cards: (top0, top1), expected_length },
        );
    }
    events.push(Event::WarStart { top_cards: (top0, top1), expected_length });
    let ghost announced = events_view(events@);
    let mut length: usize = 0;
    while length < expected_length && !players.0.is_dead() && !players.1.is_dead()
        invariant
            length <= expected_length,
            length <= before.hands.0.count(),
            length <= before.hands.1.count(),
            players.0@ == before.hands.0.after_draws(length as nat),
            players.1@ == before.hands.1.after_draws(length as nat),
            pot.0@ == before.stacks.0 + before.hands.0.drawn(length as nat),
            pot.1@ == before.stacks.1 + before.hands.1.drawn(length as nat),
            events_view(events@) == announced,
        decreases expected_length - length,
    {
        proof {
            before.hands.0.lemma_draws(length as nat);
            before.hands.1.lemma_draws(length as nat);
        }
        let drawn0 = players.0.draw();
        let drawn1 = players.1.draw();
        match (drawn0, drawn1) {
            (Some(card0), Some(card1)) => {
                pot.0.push(card0);
                pot.1.push(card1);
            },
            _ => {},
        }
        length = length + 1;
        assert(pot.0@ =~= before.stacks.0 + before.hands.0.drawn(length as nat));
        assert(pot.1@ =~= before.stacks.1 + before.hands.1.drawn(length as nat));
    }
    proof {
        before.hands.0.lemma_draws(length as nat);
        before.hands.1.lemma_draws(length as nat);
        assert(length == before.round_length());
    }
    if length < expected_length {
        let short_of_cards: usize = if players.0.is_dead() {
            0
        } else {
            1
        };
        let shortened = Event::WarShortened {
            player_id_with_insufficient_cards: short_of_cards,
            length_of_war_after_shortening: length,
            initial_length_of_war: expected_length,
        };
        proof {
            lemma_events_view_push(events@, shortened);
        }
        events.push(shortened);
    }
    assert(table_of(*players, *pot, *events) =~= before.after_round());
}

/// Decides a round of war once its stakes lie on the table. Where there is
/// a winner, the winner puts both stacks on the winnings pile, player 0's
/// first if `player0_first` and player 1's first otherwise, and the end of
/// the war is returned. Where the war takes another round, nothing changes.
pub fn war_settle(
    players: &mut (Player, Player),
    pot: &(Vec<Card>, Vec<Card>),
    player0_first: bool,
) -> (end: Option<Event>)
    requires
        pot.0@.len() > 0,
        pot.1@.len() > 0,
    ensures
        ({
            let hands = (old(players).0@, old(players).1@);
            let top_cards = (pot.0@.last(), pot.1@.last());
            match war_winner(hands, top_cards) {
                Some(winner) => {
                    &&& end is Some
                    &&& end.unwrap()@ == war_report(top_cards, winner)
                    &&& (final(players).0@, final(players).1@) == awarded(
                        hands,
                        winner,
                        merged_pot((pot.0@, pot.1@), player0_first),
                    )
                },
                None => {
                    &&& end is None
                    &&& (final(players).0@, final(players).1@) == hands
                },
            }
        }),
{
    let top0 = pot.0[pot.0.len() - 1].clone();
    let top1 = pot.1[pot.1.len() - 1].clone();
    let strength0 = top0.face().measure_strength();
    let strength1 = top1.face().measure_strength();
    let winner: usize = if strength0 < strength1 {
        1
    } else if strength0 > strength1 {
        0
    } else if !players.0.is_dead() && !players.1.is_dead() {
        return None;
    } else if players.0.is_dead() {
        1
    } else {
        0
    };
    let ghost hands = (players.0@, players.1@);
    if winner == 0 {
        if player0_first {
            players.0.capture(&pot.0);
            players.0.capture(&pot.1);
        } else {
            players.0.capture(&pot.1);
            players.0.capture(&pot.0);
        }
    } else {
        if player0_first {
            players.1.capture(&pot.0);
            players.1.capture(&pot.1);
        } else {
            players.1.capture(&pot.1);
            players.1.capture(&pot.0);
        }
    }
    let end = Event::WarEnd { winning_player_id: winner, final_top_cards: (top0, top1) };
    proof {
        let after = awarded(hands, winner as nat, merged_pot((pot.0@, pot.1@), player0_first));
        assert(players.0@ =~= after.0);
        assert(players.1@ =~= after.1);
    }
    Some(end)
}

/// Fights a war over the tied cards on top of the two stacks of `pot`,
/// round after round: the stakes are drawn, a coin is flipped for the order
/// of the pot, and the round is settled, until there is a winner. The end
/// of the war is the last event added.
pub fn resolve_war(game: &mut Game, pot: &mut (Vec<Card>, Vec<Card>), events: &mut Vec<Event>)
    requires
        table_of(old(game).players, *old(pot), *old(events)).is_tied(),
        table_of(old(game).players, *old(pot), *old(events)).is_standard(),
    ensures
        final(game).stats == old(game).stats,
        ({
            let before = table_of(old(game).players, *old(pot), *old(events));
            let after = table_of(final(game).players, *final(pot), *final(events));
            after == before.after_war(true) || after == before.after_war(false)
        }),
{
    let ghost before = table_of(game.players, *pot, *events);
    loop
        invariant_except_break
            table_of(game.players, *pot, *events).is_tied(),
            table_of(game.players, *pot, *events).is_standard(),
            table_of(game.players, *pot, *events).after_war(true) == before.after_war(true),
            table_of(game.players, *pot, *events).after_war(false) == before.after_war(false),
        invariant
            game.stats == old(game).stats,
        ensures
            table_of(game.players, *pot, *events) == before.after_war(true) || table_of(
                game.players,
                *pot,
                *events,
            ) == before.after_war(false),
        decreases game.players.0@.count() + game.players.1@.count(),
    {
        let ghost round = table_of(game.players, *pot, *events);
        proof {
            round.lemma_round();
        }
        war_round(&mut game.players, pot, events);
        let ghost staked = table_of(game.players, *pot, *events);
        let player0_first = flip_coin(&mut game.rng);
        match war_settle(&mut game.players, pot, player0_first) {
            Some(end) => {
                proof {
                    lemma_events_view_push(events@, end);
                }
                events.push(end);
                assert(table_of(game.players, *pot, *events) =~= staked.after_war_end(
                    staked.war_winner().unwrap(),
                    player0_first,
                ));
                break ;
            },
            None => {
                proof {
                    Face::lemma_standard_faces(
                        staked.top_cards().0.face(),
                        staked.top_cards().1.face(),
                    );
                    assert(table_of(game.players, *pot, *events) =~= staked);
                }
            },
        }
    }
}

} // verus!
