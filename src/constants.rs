use vstd::prelude::*;

verus! {

/// Number of colours in the deck.
pub const COLOR_COUNT: u8 = 4;

/// Skip cards of each colour.
pub const SKIP_CARDS_PER_COLOR: u8 = 2;

/// Reverse cards of each colour.
pub const REVERSE_CARDS_PER_COLOR: u8 = 2;

/// Draw-two cards of each colour.
pub const DRAW_CARDS_PER_COLOR: u8 = 2;

/// Number cards of each colour: one zero and two of each of one to nine.
pub const NUMBER_CARDS_PER_COLOR_COUNT: u8 = 19;

/// Number cards in the whole deck.
pub const NUMBER_CARDS_IN_DECK: u8 = NUMBER_CARDS_PER_COLOR_COUNT * COLOR_COUNT;

/// Skip cards in the whole deck.
pub const SKIP_CARDS_IN_DECK: u8 = SKIP_CARDS_PER_COLOR * COLOR_COUNT;

/// Reverse cards in the whole deck.
pub const REVERSE_CARDS_IN_DECK: u8 = REVERSE_CARDS_PER_COLOR * COLOR_COUNT;

/// Draw-two cards in the whole deck.
pub const DRAW_CARDS_IN_DECK: u8 = DRAW_CARDS_PER_COLOR * COLOR_COUNT;

/// Wild cards in the whole deck.
pub const WILD_CARDS_IN_DECK: u8 = 4;

/// Wild draw-four cards in the whole deck.
pub const WILD_DRAW_CARDS_IN_DECK: u8 = 4;

/// Cards in the whole deck.
pub const TOTAL_CARDS_IN_DECK: u8 = NUMBER_CARDS_IN_DECK + SKIP_CARDS_IN_DECK
    + REVERSE_CARDS_IN_DECK + DRAW_CARDS_IN_DECK + WILD_CARDS_IN_DECK + WILD_DRAW_CARDS_IN_DECK;

/// The numbers printed on the number cards of one colour.
pub open spec fn number_ranks() -> Seq<u8> {
    seq![0u8, 1, 1, 2, 2, 3, 3, 4, 4, 5, 5, 6, 6, 7, 7, 8, 8, 9, 9]
}

/// The numbers printed on the number cards of one colour, in deck order.
pub fn number_cards_per_color() -> (r: Vec<u8>)
    ensures
        r@ == number_ranks(),
        r@.len() == NUMBER_CARDS_PER_COLOR_COUNT,
{
    vec![0u8, 1, 1, 2, 2, 3, 3, 4, 4, 5, 5, 6, 6, 7, 7, 8, 8, 9, 9]
}

} // verus!
