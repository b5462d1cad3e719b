//! A player's two piles, and what drawing from them and winning a pot does.

use vstd::prelude::*;
use vstd::multiset::Multiset;
use vstd::seq_lib::*;
use crate::card::Card;

verus! {

/// Whether every card of a sequence has a face of the standard deck.
pub open spec fn all_standard(cards: Seq<Card>) -> bool {
    forall|i: int| 0 <= i < cards.len() ==> (#[trigger] cards[i]).face().is_standard()
}

/// The summed battle strength of a sequence of cards.
pub open spec fn total_strength(cards: Seq<Card>) -> nat
    decreases cards.len(),
{
    if cards.len() == 0 {
        0
    } else {
        total_strength(cards.drop_last()) + cards.last().face().measure_strength() as nat
    }
}

/// The mathematical value of a [`Player`]: the two piles as sequences. The
/// top of a pile is its last card.
#[verifier::ext_equal]
pub struct Hand {
    pub draw: Seq<Card>,
    pub winnings: Seq<Card>,
}

impl Hand {
    /// The number of cards in both piles.
    pub open spec fn count(self) -> nat {
        self.draw.len() + self.winnings.len()
    }

    /// A player without a card is out of the game.
    pub open spec fn is_dead(self) -> bool {
        self.count() == 0
    }

    /// A player who holds the whole deck has won.
    pub open spec fn is_winner(self) -> bool {
        self.count() == 52
    }

    /// The summed battle strength of all cards held.
    pub open spec fn strength(self) -> nat {
        total_strength(self.draw) + total_strength(self.winnings)
    }

    /// The cards of both piles, without their order.
    pub open spec fn cards(self) -> Multiset<Card> {
        self.draw.to_multiset().add(self.winnings.to_multiset())
    }

    /// Whether every card held has a face of the standard deck.
    pub open spec fn is_standard(self) -> bool {
        all_standard(self.draw) && all_standard(self.winnings)
    }

    /// The card that the next draw yields: the top of the draw pile, or the
    /// top of the winnings pile once the draw pile is used up.
    pub open spec fn next_card(self) -> Option<Card> {
        if self.draw.len() > 0 {
            Some(self.draw.last())
        } else if self.winnings.len() > 0 {
            Some(self.winnings.last())
        } else {
            None
        }
    }

    /// The piles after one draw. An empty draw pile is first replaced by
    /// the winnings pile, in the order of capture.
    pub open spec fn after_draw(self) -> Hand {
        if self.draw.len() > 0 {
            Hand { draw: self.draw.drop_last(), winnings: self.winnings }
        } else if self.winnings.len() > 0 {
            Hand { draw: self.winnings.drop_last(), winnings: Seq::empty() }
        } else {
            self
        }
    }

    /// The piles after `n` draws in a row.
    pub open spec fn after_draws(self, n: nat) -> Hand
        decreases n,
    {
        if n == 0 {
            self
        } else {
            self.after_draws((n - 1) as nat).after_draw()
        }
    }

    /// The cards that `n` draws in a row yield, first drawn first.
    pub open spec fn drawn(self, n: nat) -> Seq<Card>
        decreases n,
    {
        if n == 0 {
            Seq::empty()
        } else {
            match self.after_draws((n - 1) as nat).next_card() {
                Some(card) => self.drawn((n - 1) as nat).push(card),
                None => self.drawn((n - 1) as nat),
            }
        }
    }

    /// Every card held, in the order in which draws would yield them.
    pub open spec fn draw_order(self) -> Seq<Card> {
        self.draw.reverse() + self.winnings.reverse()
    }

    /// The piles after a pot was won: it goes on top of the winnings pile.
    pub open spec fn capture(self, pot: Seq<Card>) -> Hand {
        Hand { draw: self.draw, winnings: self.winnings + pot }
    }

    /// One draw from a hand that holds a card takes exactly that card out of
    /// the hand.
    pub proof fn lemma_draw(self)
        requires
            !self.is_dead(),
        ensures
            self.next_card() is Some,
            self.after_draw().count() == self.count() - 1,
            self.after_draw().cards().insert(self.next_card().unwrap()) == self.cards(),
            self.is_standard() ==> self.after_draw().is_standard()
                && self.next_card().unwrap().face().is_standard(),
    {
        broadcast use group_to_multiset_ensures;

        if self.draw.len() > 0 {
            assert(self.draw == self.draw.drop_last().push(self.draw.last()));
            assert(self.cards() =~= self.after_draw().cards().insert(self.draw.last()));
        } else {
            assert(self.winnings == self.winnings.drop_last().push(self.winnings.last()));
            assert(self.draw.to_multiset() =~= Multiset::empty());
            assert(Seq::<Card>::empty().to_multiset() =~= Multiset::empty());
            assert(self.cards() =~= self.after_draw().cards().insert(self.winnings.last()));
        }
    }

    /// As long as the cards last, `n` draws yield `n` cards, and these
    /// together with what stays in the hand are the cards held before.
    pub proof fn lemma_draws(self, n: nat)
        requires
            n <= self.count(),
        ensures
            self.after_draws(n).count() == self.count() - n,
            self.drawn(n).len() == n,
            self.after_draws(n).cards().add(self.drawn(n).to_multiset()) == self.cards(),
            self.is_standard() ==> self.after_draws(n).is_standard() && all_standard(
                self.drawn(n),
            ),
        decreases n,
    {
        broadcast use group_to_multiset_ensures;

        if n == 0 {
            assert(self.drawn(0).to_multiset() =~= Multiset::empty());
            assert(self.cards().add(Multiset::empty()) =~= self.cards());
        } else {
            let m = (n - 1) as nat;
            self.lemma_draws(m);
            let before = self.after_draws(m);
            before.lemma_draw();
            let card = before.next_card().unwrap();
            assert(self.drawn(n) == self.drawn(m).push(card));
            assert(self.after_draws(n).cards().add(self.drawn(n).to_multiset())
                =~= before.cards().add(self.drawn(m).to_multiset()));
        }
    }

    /// Draws come off the draw pile from its top down and then off the
    /// winnings pile from its top down.
    pub proof fn lemma_drawn_in_order(self, n: nat)
        requires
            n <= self.count(),
        ensures
            self.drawn(n) == self.draw_order().take(n as int),
            self.after_draws(n).draw_order() == self.draw_order().skip(n as int),
        decreases n,
    {
        if n == 0 {
            assert(self.drawn(0) =~= self.draw_order().take(0));
            assert(self.draw_order() =~= self.draw_order().skip(0));
        } else {
            let m = (n - 1) as nat;
            self.lemma_draws(m);
            self.lemma_drawn_in_order(m);
            let before = self.after_draws(m);
            assert(before.draw_order().len() == before.count());
            assert(before.next_card() == Some(before.draw_order()[0]));
            assert(before.after_draw().draw_order() =~= before.draw_order().skip(1));
            assert(self.drawn(n) =~= self.draw_order().take(n as int));
            assert(self.after_draws(n).draw_order() =~= self.draw_order().skip(n as int));
        }
    }

    /// Winning a pot adds exactly the pot to the hand.
    pub proof fn lemma_capture(self, pot: Seq<Card>)
        ensures
            self.capture(pot).count() == self.count() + pot.len(),
            self.capture(pot).cards() == self.cards().add(pot.to_multiset()),
            self.is_standard() && all_standard(pot) ==> self.capture(pot).is_standard(),
    {
        lemma_multiset_commutative(self.winnings, pot);
        assert(self.capture(pot).cards() =~= self.cards().add(pot.to_multiset()));
    }
}

/// Summing the strengths of a longer prefix never gives less.
proof fn lemma_strength_prefix(cards: Seq<Card>, i: int)
    requires
        0 <= i < cards.len(),
    ensures
        total_strength(cards.take(i + 1)) == total_strength(cards.take(i))
            + cards[i].face().measure_strength(),
        total_strength(cards.take(i + 1)) <= total_strength(cards),
    decreases cards.len() - i,
{
    assert(cards.take(i + 1).drop_last() == cards.take(i));
    if i + 1 < cards.len() {
        lemma_strength_prefix(cards, i + 1);
    } else {
        assert(cards.take(i + 1) == cards);
    }
}

/// A player: the pile to draw from and the pile of cards won. The top of a
/// pile is the end of its vector.
#[derive(Debug)]
pub struct Player {
    pub draw_pile: Vec<Card>,
    pub winnings_pile: Vec<Card>,
}

/// A copy of a sequence of cards.
pub fn clone_cards(cards: &Vec<Card>) -> (copy: Vec<Card>)
    ensures
        copy@ == cards@,
{
    let mut copy: Vec<Card> = Vec::new();
    let mut i: usize = 0;
    while i < cards.len()
        invariant
            i <= cards.len(),
            copy@ == cards@.take(i as int),
        decreases cards.len() - i,
    {
        copy.push(cards[i].clone());
        assert(cards@.take(i + 1) == cards@.take(i as int).push(cards@[i as int]));
        i = i + 1;
    }
    assert(cards@.take(i as int) == cards@);
    copy
}

/// Whether every card of a pile has a face of the standard deck.
pub fn cards_standard(cards: &Vec<Card>) -> (standard: bool)
    ensures
        standard == all_standard(cards@),
{
    let mut i: usize = 0;
    while i < cards.len()
        invariant
            i <= cards.len(),
            all_standard(cards@.take(i as int)),
        decreases cards.len() - i,
    {
        if !cards[i].face().is_standard() {
            return false;
        }
        assert forall|j: int| 0 <= j < i + 1 implies (#[trigger] cards@.take(
            i + 1,
        )[j]).face().is_standard() by {
            if j < i {
                assert(cards@.take(i as int)[j].face().is_standard());
            }
        }
        i = i + 1;
    }
    assert(cards@.take(i as int) == cards@);
    true
}

impl Clone for Player {
    fn clone(&self) -> (copy: Self)
        ensures
            copy@ == self@,
    {
        Player {
            draw_pile: clone_cards(&self.draw_pile),
            winnings_pile: clone_cards(&self.winnings_pile),
        }
    }
}

impl View for Player {
    type V = Hand;

    open spec fn view(&self) -> Hand {
        Hand { draw: self.draw_pile@, winnings: self.winnings_pile@ }
    }
}

impl Player {
    /// Whether the player holds no card at all.
    pub fn is_dead(&self) -> (dead: bool)
        ensures
            dead == self@.is_dead(),
    {
        self.draw_pile.len() == 0 && self.winnings_pile.len() == 0
    }

    /// Whether every card held has a face of the standard deck.
    pub fn is_standard(&self) -> (standard: bool)
        ensures
            standard == self@.is_standard(),
    {
        cards_standard(&self.draw_pile) && cards_standard(&self.winnings_pile)
    }

    /// Whether the player holds all 52 cards of the deck.
    pub fn is_winner(&self) -> (winner: bool)
        ensures
            winner == self@.is_winner(),
    {
        let in_draw: usize = self.draw_pile.len();
        in_draw <= 52 && self.winnings_pile.len() == 52 - in_draw
    }

    /// The number of cards in both piles.
    pub fn count_cards(&self) -> (count: usize)
        requires
            self@.count() <= usize::MAX,
        ensures
            count == self@.count(),
    {
        self.draw_pile.len() + self.winnings_pile.len()
    }

    /// The summed battle strength of all cards held.
    pub fn measure_strength(&self) -> (strength: usize)
        requires
            self@.strength() <= usize::MAX,
        ensures
            strength == self@.strength(),
    {
        let mut strength: usize = 0;
        let mut i: usize = 0;
        while i < self.draw_pile.len()
            invariant
                i <= self.draw_pile.len(),
                strength == total_strength(self.draw_pile@.take(i as int)),
                self@.strength() <= usize::MAX,
            decreases self.draw_pile.len() - i,
        {
            proof {
                lemma_strength_prefix(self.draw_pile@, i as int);
            }
            strength = strength + self.draw_pile[i].face().measure_strength();
            i = i + 1;
        }
        assert(self.draw_pile@.take(i as int) == self.draw_pile@);
        let mut j: usize = 0;
        while j < self.winnings_pile.len()
            invariant
                j <= self.winnings_pile.len(),
                strength == total_strength(self.draw_pile@) + total_strength(
                    self.winnings_pile@.take(j as int),
                ),
                self@.strength() <= usize::MAX,
            decreases self.winnings_pile.len() - j,
        {
            proof {
                lemma_strength_prefix(self.winnings_pile@, j as int);
            }
            strength = strength + self.winnings_pile[j].face().measure_strength();
            j = j + 1;
        }
        assert(self.winnings_pile@.take(j as int) == self.winnings_pile@);
        strength
    }

    /// Takes the next card. When the draw pile is empty and the winnings
    /// pile is not, the winnings pile becomes the draw pile first.
    pub fn draw(&mut self) -> (card: Option<Card>)
        ensures
            card == old(self)@.next_card(),
            final(self)@ == old(self)@.after_draw(),
    {
        if self.draw_pile.len() == 0 && self.winnings_pile.len() != 0 {
            std::mem::swap(&mut self.draw_pile, &mut self.winnings_pile);
        }
        let card = self.draw_pile.pop();
        assert(self.draw_pile@ =~= old(self)@.after_draw().draw);
        assert(self.winnings_pile@ =~= old(self)@.after_draw().winnings);
        card
    }

    /// Puts a pot on top of the winnings pile, in the pot's order.
    pub fn capture(&mut self, pot: &Vec<Card>)
        ensures
            final(self)@ == old(self)@.capture(pot@),
    {
        let mut i: usize = 0;
        while i < pot.len()
            invariant
                i <= pot.len(),
                self.draw_pile@ == old(self).draw_pile@,
                self.winnings_pile@ == old(self).winnings_pile@ + pot@.take(i as int),
            decreases pot.len() - i,
        {
            self.winnings_pile.push(pot[i].clone());
            assert(pot@.take(i + 1) == pot@.take(i as int).push(pot@[i as int]));
            i = i + 1;
        }
        assert(pot@.take(i as int) == pot@);
    }
}

} // verus!
