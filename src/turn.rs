use vstd::prelude::*;

use crate::card::{Card, CardColor};

verus! {

/// A card to put down; a wild card comes with the colour chosen for it.
#[derive(Clone, Copy, Debug, PartialEq, Eq, Structural)]
pub enum PlayAction {
    ColoredCard(Card),
    Wild(CardColor),
    WildDraw(CardColor),
}

/// What the player whose turn it is asks to do.
#[derive(Clone, Copy, Debug, PartialEq, Eq, Structural)]
pub enum TurnAction {
    Play(PlayAction),
    Draw,
    Callout,
    Uno,
}

/// How the engine resolved an action.
#[derive(Debug, PartialEq, Eq)]
pub enum TurnActionResult {
    Neutral,
    CardNotInHand,
    Skip,
    Reverse,
    SelfDraw,
    Draw,
    Wild,
    WildDraw,
    CalloutFailed,
    /// The ids of the players who were caught, in ascending order.
    CalledOut(Vec<u64>),
    UnoFailed,
    UnoSuccessful,
    /// The draw pile holds fewer cards than the action would hand out; nothing
    /// was changed.
    DeckExhausted,
}

/// A `TurnActionResult` as the contracts see it.
pub enum TurnOutcome {
    Neutral,
    CardNotInHand,
    Skip,
    Reverse,
    SelfDraw,
    Draw,
    Wild,
    WildDraw,
    CalloutFailed,
    CalledOut(Seq<u64>),
    UnoFailed,
    UnoSuccessful,
    DeckExhausted,
}

impl View for TurnActionResult {
    type V = TurnOutcome;

    open spec fn view(&self) -> TurnOutcome {
        match self {
            TurnActionResult::Neutral => TurnOutcome::Neutral,
            TurnActionResult::CardNotInHand => TurnOutcome::CardNotInHand,
            TurnActionResult::Skip => TurnOutcome::Skip,
            TurnActionResult::Reverse => TurnOutcome::Reverse,
            TurnActionResult::SelfDraw => TurnOutcome::SelfDraw,
            TurnActionResult::Draw => TurnOutcome::Draw,
            TurnActionResult::Wild => TurnOutcome::Wild,
            TurnActionResult::WildDraw => TurnOutcome::WildDraw,
            TurnActionResult::CalloutFailed => TurnOutcome::CalloutFailed,
            TurnActionResult::CalledOut(ids) => TurnOutcome::CalledOut(ids@),
            TurnActionResult::UnoFailed => TurnOutcome::UnoFailed,
            TurnActionResult::UnoSuccessful => TurnOutcome::UnoSuccessful,
            TurnActionResult::DeckExhausted => TurnOutcome::DeckExhausted,
        }
    }
}

/// The result of one turn, and whether the acting player emptied their hand.
#[derive(Debug, PartialEq, Eq)]
pub struct PlayTurnResult {
    pub turn_action_result: TurnActionResult,
    pub won: bool,
}

} // verus!
