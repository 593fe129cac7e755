use vstd::prelude::*;

verus! {

/// One of the four suits of coloured cards.
#[derive(Clone, Copy, Debug, PartialEq, Eq, Structural)]
pub enum CardColor {
    Red,
    Green,
    Blue,
    Yellow,
}

/// The rank of a coloured card.
#[derive(Clone, Copy, Debug, PartialEq, Eq, Structural)]
pub enum ColoredCard {
    Number(u8),
    Skip,
    Reverse,
    Draw,
}

impl ColoredCard {
    /// The face-up form of this rank once played in `color`.
    pub fn into_played_card(self, color: CardColor) -> (r: PlayedCard)
        ensures
            r == PlayedCard::Colored(color, self),
    {
        match self {
            ColoredCard::Number(number) => PlayedCard::Colored(color, ColoredCard::Number(number)),
            ColoredCard::Skip => PlayedCard::Colored(color, ColoredCard::Skip),
            ColoredCard::Reverse => PlayedCard::Colored(color, ColoredCard::Reverse),
            ColoredCard::Draw => PlayedCard::Colored(color, ColoredCard::Draw),
        }
    }
}

/// A card as it sits in the draw pile or in a hand.
#[derive(Clone, Copy, Debug, PartialEq, Eq, Structural)]
pub enum Card {
    Colored(CardColor, ColoredCard),
    Wild,
    WildDraw,
}

/// The face-up card; wild cards carry the colour chosen when they were played.
#[derive(Clone, Copy, Debug, PartialEq, Eq, Structural)]
pub enum PlayedCard {
    Colored(CardColor, ColoredCard),
    Wild(CardColor),
    WildDraw(CardColor),
}

/// The decimal digit `d` as a character.
pub open spec fn digit_char(d: nat) -> char {
    (48 + d) as char
}

/// The decimal notation of `n`, without leading zeros.
pub open spec fn decimal_text(n: nat) -> Seq<char>
    decreases n,
{
    if n < 10 {
        seq![digit_char(n)]
    } else {
        decimal_text(n / 10).push(digit_char(n % 10))
    }
}

/// The name of a colour.
pub open spec fn color_text(c: CardColor) -> Seq<char> {
    match c {
        CardColor::Red => "Red"@,
        CardColor::Green => "Green"@,
        CardColor::Blue => "Blue"@,
        CardColor::Yellow => "Yellow"@,
    }
}

/// The name of a rank: its number, or the name of its action.
pub open spec fn rank_text(r: ColoredCard) -> Seq<char> {
    match r {
        ColoredCard::Number(n) => decimal_text(n as nat),
        ColoredCard::Skip => "Skip"@,
        ColoredCard::Reverse => "Reverse"@,
        ColoredCard::Draw => "Draw"@,
    }
}

/// How a card reads: `"<Color> <Rank>"`, `"Wild"` or `"Wild Draw"`.
pub open spec fn card_text(c: Card) -> Seq<char> {
    match c {
        Card::Colored(color, rank) => color_text(color) + " "@ + rank_text(rank),
        Card::Wild => "Wild"@,
        Card::WildDraw => "Wild Draw"@,
    }
}

fn digit_str(d: u8) -> (r: &'static str)
    requires
        d < 10,
    ensures
        r@ == seq![digit_char(d as nat)],
{
    proof {
        reveal_strlit("0");
        reveal_strlit("1");
        reveal_strlit("2");
        reveal_strlit("3");
        reveal_strlit("4");
        reveal_strlit("5");
        reveal_strlit("6");
        reveal_strlit("7");
        reveal_strlit("8");
        reveal_strlit("9");
    }
    match d {
        0 => "0",
        1 => "1",
        2 => "2",
        3 => "3",
        4 => "4",
        5 => "5",
        6 => "6",
        7 => "7",
        8 => "8",
        _ => "9",
    }
}

fn number_text(n: u8) -> (r: String)
    ensures
        r@ == decimal_text(n as nat),
{
    let mut r = String::new();
    if n >= 100 {
        r.append(digit_str(n / 100));
        assert(decimal_text((n / 100) as nat) == seq![digit_char((n / 100) as nat)]);
    }
    if n >= 10 {
        r.append(digit_str((n / 10) % 10));
        assert(((n / 10) / 10) as nat == (n / 100) as nat);
        assert(decimal_text((n / 10) as nat) == r@);
    }
    r.append(digit_str(n % 10));
    r
}

impl CardColor {
    /// Every colour, each once.
    pub fn all() -> (r: Vec<CardColor>)
        ensures
            r@ == seq![CardColor::Red, CardColor::Green, CardColor::Blue, CardColor::Yellow],
    {
        vec![CardColor::Red, CardColor::Green, CardColor::Blue, CardColor::Yellow]
    }

    /// The colour's name, as shown to players.
    pub fn to_string(&self) -> (r: String)
        ensures
            r@ == color_text(*self),
    {
        match self {
            CardColor::Red => String::from_str("Red"),
            CardColor::Green => String::from_str("Green"),
            CardColor::Blue => String::from_str("Blue"),
            CardColor::Yellow => String::from_str("Yellow"),
        }
    }
}

impl ColoredCard {
    /// The rank's name, as shown to players.
    pub fn to_string(&self) -> (r: String)
        ensures
            r@ == rank_text(*self),
    {
        match self {
            ColoredCard::Number(n) => number_text(*n),
            ColoredCard::Skip => String::from_str("Skip"),
            ColoredCard::Reverse => String::from_str("Reverse"),
            ColoredCard::Draw => String::from_str("Draw"),
        }
    }
}

impl Card {
    /// The card's text, as shown to players.
    pub fn to_string(&self) -> (r: String)
        ensures
            r@ == card_text(*self),
    {
        match self {
            Card::Colored(color, rank) => {
                let mut r = color.to_string();
                r.append(" ");
                let rank_name = rank.to_string();
                r.append(rank_name.as_str());
                r
            },
            Card::Wild => String::from_str("Wild"),
            Card::WildDraw => String::from_str("Wild Draw"),
        }
    }
}

} // verus!
