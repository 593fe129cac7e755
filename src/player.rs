use vstd::prelude::*;

use crate::card::Card;

verus! {

/// What a player is, as the contracts see it.
pub struct PlayerView {
    pub id: u64,
    pub name: Seq<char>,
    pub hand: Seq<Card>,
    pub uno_performed: bool,
}

impl PlayerView {
    /// The player after `cards` were added to the hand, in order; adding any
    /// card clears the Uno call.
    pub open spec fn receive(self, cards: Seq<Card>) -> PlayerView {
        PlayerView {
            hand: self.hand + cards,
            uno_performed: if cards.len() > 0 {
                false
            } else {
                self.uno_performed
            },
            ..self
        }
    }

    /// The player after the card at `index` left the hand.
    pub open spec fn discard(self, index: int) -> PlayerView {
        PlayerView { hand: self.hand.remove(index), uno_performed: false, ..self }
    }
}

/// `i` is the first position of `card` in `hand`.
pub open spec fn is_first_index(hand: Seq<Card>, card: Card, i: int) -> bool {
    &&& 0 <= i < hand.len()
    &&& hand[i] == card
    &&& forall|j: int| 0 <= j < i ==> hand[j] != card
}

/// A participant: an id given from outside, a display name, and a hand
/// kept in the order in which the cards arrived.
#[derive(Debug)]
pub struct Player {
    pub id: u64,
    pub name: String,
    pub hand: Vec<Card>,
    pub uno_performed: bool,
}

impl View for Player {
    type V = PlayerView;

    open spec fn view(&self) -> PlayerView {
        PlayerView {
            id: self.id,
            name: self.name@,
            hand: self.hand@,
            uno_performed: self.uno_performed,
        }
    }
}

impl Player {
    pub fn new(id: u64, name: String, cards: Vec<Card>) -> (p: Player)
        ensures
            p@ == (PlayerView { id, name: name@, hand: cards@, uno_performed: false }),
    {
        Player { id, name, hand: cards, uno_performed: false }
    }

    pub fn cards_count(&self) -> (r: usize)
        ensures
            r == self@.hand.len(),
    {
        self.hand.len()
    }

    /// Position of the first card in the hand equal to `card`.
    pub fn card_index(&self, card: &Card) -> (r: Option<usize>)
        ensures
            match r {
                Some(i) => is_first_index(self@.hand, *card, i as int),
                None => !self@.hand.contains(*card),
            },
    {
        let mut i: usize = 0;
        while i < self.hand.len()
            invariant
                i <= self.hand@.len(),
                forall|j: int| 0 <= j < i ==> self.hand@[j] != *card,
            decreases self.hand@.len() - i,
        {
            if self.hand[i] == *card {
                return Some(i);
            }
            i = i + 1;
        }
        None
    }

    /// Adds a card at the end of the hand and clears the Uno call.
    pub fn add_card(&mut self, card: Card)
        ensures
            final(self)@ == old(self)@.receive(seq![card]),
    {
        self.hand.push(card);
        self.uno_performed = false;
        assert(self@.hand == old(self)@.hand + seq![card]);
    }

    /// Removes the card at `index` and clears the Uno call.
    pub fn remove_card(&mut self, index: usize)
        requires
            index < old(self)@.hand.len(),
        ensures
            final(self)@ == old(self)@.discard(index as int),
    {
        self.hand.remove(index);
        self.uno_performed = false;
    }

    /// Records that the player has called Uno.
    pub fn uno(&mut self)
        ensures
            final(self)@ == (PlayerView { uno_performed: true, ..old(self)@ }),
    {
        self.uno_performed = true;
    }
}

} // verus!
