use rand::seq::SliceRandom;
use vstd::prelude::*;

use crate::card::{Card, CardColor, ColoredCard};
use crate::constants::{
    number_cards_per_color, number_ranks, DRAW_CARDS_PER_COLOR, REVERSE_CARDS_PER_COLOR,
    SKIP_CARDS_PER_COLOR, TOTAL_CARDS_IN_DECK, WILD_CARDS_IN_DECK, WILD_DRAW_CARDS_IN_DECK,
};

verus! {

broadcast use vstd::seq_lib::group_to_multiset_ensures, vstd::multiset::group_multiset_axioms;

/// How many copies of a card a standard deck holds.
pub open spec fn standard_count(c: Card) -> nat {
    match c {
        Card::Colored(_, ColoredCard::Number(n)) => number_count(n),
        Card::Colored(_, _) => 2,
        Card::Wild => 4,
        Card::WildDraw => 4,
    }
}

/// A full standard deck, in any order: 108 cards with the standard count of each.
pub open spec fn is_standard_deck(s: Seq<Card>) -> bool {
    &&& s.len() == 108
    &&& forall|c: Card| #[trigger] s.to_multiset().count(c) == standard_count(c)
}

/// How many number cards of rank `n` one colour holds.
pub open spec fn number_count(n: u8) -> nat {
    if n == 0 {
        1
    } else if n <= 9 {
        2
    } else {
        0
    }
}

/// Position of a colour in the order in which the deck is built.
spec fn color_rank(c: CardColor) -> nat {
    match c {
        CardColor::Red => 0,
        CardColor::Green => 1,
        CardColor::Blue => 2,
        CardColor::Yellow => 3,
    }
}

/// Copies of `c` among the cards of the colours before the `k`-th.
spec fn colors_done_count(k: nat, c: Card) -> nat {
    match c {
        Card::Colored(color, _) => if color_rank(color) < k {
            standard_count(c)
        } else {
            0
        },
        _ => 0,
    }
}

/// The number list of one colour holds each number as often as a standard
/// deck does.
proof fn lemma_number_ranks_count(n: u8)
    ensures
        number_ranks().to_multiset().count(n) == number_count(n),
{
    let s = number_ranks();
    assert(s == seq![0u8].push(1).push(1).push(2).push(2).push(3).push(3).push(4).push(4).push(
        5,
    ).push(5).push(6).push(6).push(7).push(7).push(8).push(8).push(9).push(9));
    assert(seq![0u8] == Seq::<u8>::empty().push(0));
}

/// `i` is the position of the first coloured card of `s`.
pub open spec fn is_first_colored(s: Seq<Card>, i: int) -> bool {
    &&& 0 <= i < s.len()
    &&& s[i] is Colored
    &&& forall|j: int| 0 <= j < i ==> !(#[trigger] s[j] is Colored)
}

/// Relies on rand's `SliceRandom::shuffle` over the thread-local generator: it
/// permutes the slice in place by swaps, so the same cards remain.
#[verifier::external_body]
fn shuffle_cards(cards: &mut Vec<Card>)
    ensures
        final(cards)@.to_multiset() == old(cards)@.to_multiset(),
{
    let mut rng = rand::thread_rng();
    cards.shuffle(&mut rng);
}

/// The draw pile, front first.
#[derive(Debug)]
pub struct Deck(Vec<Card>);

impl View for Deck {
    type V = Seq<Card>;

    closed spec fn view(&self) -> Seq<Card> {
        self.0@
    }
}

fn push_copies(cards: &mut Vec<Card>, card: Card, n: u8)
    ensures
        final(cards)@.len() == old(cards)@.len() + n,
        forall|c: Card| #[trigger]
            final(cards)@.to_multiset().count(c) == old(cards)@.to_multiset().count(c) + if c
                == card {
                n as nat
            } else {
                0
            },
{
    let mut i: u8 = 0;
    while i < n
        invariant
            i <= n,
            cards@.len() == old(cards)@.len() + i,
            forall|c: Card| #[trigger]
                cards@.to_multiset().count(c) == old(cards)@.to_multiset().count(c) + if c
                    == card {
                    i as nat
                } else {
                    0
                },
        decreases n - i,
    {
        cards.push(card);
        i = i + 1;
    }
}

fn push_number_cards(cards: &mut Vec<Card>, color: CardColor)
    ensures
        final(cards)@.len() == old(cards)@.len() + 19,
        forall|c: Card| #[trigger]
            final(cards)@.to_multiset().count(c) == old(cards)@.to_multiset().count(c) + match c {
                Card::Colored(col, ColoredCard::Number(m)) => if col == color {
                    number_count(m)
                } else {
                    0
                },
                _ => 0,
            },
{
    let numbers = number_cards_per_color();
    for j in 0..numbers.len()
        invariant
            numbers@ == number_ranks(),
            cards@.len() == old(cards)@.len() + j,
            forall|c: Card| #[trigger]
                cards@.to_multiset().count(c) == old(cards)@.to_multiset().count(c) + match c {
                    Card::Colored(col, ColoredCard::Number(m)) => if col == color {
                        numbers@.take(j as int).to_multiset().count(m)
                    } else {
                        0
                    },
                    _ => 0,
                },
    {
        assert(numbers@.take(j + 1) == numbers@.take(j as int).push(numbers@[j as int]));
        cards.push(Card::Colored(color, ColoredCard::Number(numbers[j])));
    }
    assert(numbers@.take(19) == numbers@);
    assert forall|m: u8| number_ranks().to_multiset().count(m) == number_count(m) by {
        lemma_number_ranks_count(m);
    }
}

impl Deck {
    /// A full standard deck, unshuffled.
    pub fn new() -> (d: Deck)
        ensures
            is_standard_deck(d@),
    {
        let mut cards: Vec<Card> = Vec::with_capacity(TOTAL_CARDS_IN_DECK as usize);
        let colors = CardColor::all();
        for k in 0..colors.len()
            invariant
                colors@ == seq![
                    CardColor::Red,
                    CardColor::Green,
                    CardColor::Blue,
                    CardColor::Yellow,
                ],
                cards@.len() == 25 * k,
                forall|c: Card| #[trigger]
                    cards@.to_multiset().count(c) == colors_done_count(k as nat, c),
        {
            let color = colors[k];
            assert(color_rank(color) == k);
            push_copies(&mut cards, Card::Colored(color, ColoredCard::Skip), SKIP_CARDS_PER_COLOR);
            push_copies(
                &mut cards,
                Card::Colored(color, ColoredCard::Reverse),
                REVERSE_CARDS_PER_COLOR,
            );
            push_copies(&mut cards, Card::Colored(color, ColoredCard::Draw), DRAW_CARDS_PER_COLOR);
            push_number_cards(&mut cards, color);
            assert forall|c: Card| #[trigger]
                cards@.to_multiset().count(c) == colors_done_count((k + 1) as nat, c) by {
                match c {
                    Card::Colored(col, _) => {
                        if col == color {
                        } else {
                            assert(color_rank(col) != k);
                        }
                    },
                    _ => {},
                }
            }
        }
        push_copies(&mut cards, Card::Wild, WILD_CARDS_IN_DECK);
        push_copies(&mut cards, Card::WildDraw, WILD_DRAW_CARDS_IN_DECK);
        Deck(cards)
    }

    /// Puts the cards in a random order.
    pub fn shuffle(&mut self)
        ensures
            final(self)@.to_multiset() == old(self)@.to_multiset(),
            final(self)@.len() == old(self)@.len(),
    {
        shuffle_cards(&mut self.0);
        proof {
            vstd::seq_lib::to_multiset_len(old(self)@);
            vstd::seq_lib::to_multiset_len(self@);
        }
    }

    /// Takes the first `count` cards off the pile; `None`, with the pile
    /// untouched, when fewer than `count` remain.
    pub fn draw_cards(&mut self, count: usize) -> (r: Option<Vec<Card>>)
        ensures
            count <= old(self)@.len() ==> (r matches Some(drawn) && drawn@ == old(self)@.take(
                count as int,
            ) && final(self)@ == old(self)@.skip(count as int)),
            count > old(self)@.len() ==> r is None && final(self)@ == old(self)@,
    {
        if count > self.0.len() {
            return None;
        }
        let mut drawn = self.0.split_off(count);
        std::mem::swap(&mut self.0, &mut drawn);
        Some(drawn)
    }

    /// Takes the first coloured card out of the pile, if there is one.
    pub fn draw_colored_card(&mut self) -> (r: Option<Card>)
        ensures
            match r {
                Some(c) => exists|i: int|
                    is_first_colored(old(self)@, i) && c == old(self)@[i] && final(self)@ == old(
                        self,
                    )@.remove(i),
                None => final(self)@ == old(self)@ && forall|i: int|
                    0 <= i < old(self)@.len() ==> !(#[trigger] old(self)@[i] is Colored),
            },
    {
        let mut i: usize = 0;
        while i < self.0.len()
            invariant
                self@ == old(self)@,
                i <= self@.len(),
                forall|j: int| 0 <= j < i ==> !(#[trigger] self@[j] is Colored),
            decreases self@.len() - i,
        {
            if matches!(self.0[i], Card::Colored(_, _)) {
                assert(is_first_colored(old(self)@, i as int));
                let c = self.0.remove(i);
                return Some(c);
            }
            i = i + 1;
        }
        None
    }

    /// Number of cards left in the pile.
    pub fn cards_count(&self) -> (r: usize)
        ensures
            r == self@.len(),
    {
        self.0.len()
    }
}

} // verus!
