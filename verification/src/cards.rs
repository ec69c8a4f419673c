//! Playing cards: suits, ranks and the standard deck of 52.

use vstd::prelude::*;
use crate::text::{char_from_code, push_char};

verus! {

/// Number of cards a player holds in hand while their deck can supply them.
pub const HAND_SIZE: usize = 5;

/// Number of cards in the standard deck.
pub const DECK_SIZE: usize = 52;

/// The suit of a card.
#[derive(Debug, Clone, Copy, PartialEq, Eq, Structural)]
pub enum Suit {
    Clubs,
    Diamonds,
    Hearts,
    Spades,
}

impl Suit {
    /// Position of the suit in the order clubs, diamonds, hearts, spades.
    pub open spec fn spec_index(self) -> int {
        match self {
            Suit::Clubs => 0,
            Suit::Diamonds => 1,
            Suit::Hearts => 2,
            Suit::Spades => 3,
        }
    }

    /// Whether the suit is drawn in black (clubs and spades) rather than red.
    pub open spec fn is_black(self) -> bool {
        self == Suit::Clubs || self == Suit::Spades
    }

    /// Get the display colour of this suit: black for clubs and spades, red
    /// for diamonds and hearts, as a CSS hex colour.
    pub fn colour(&self) -> (hex: &'static str)
        ensures
            self.is_black() ==> hex@ == "#000000"@,
            !self.is_black() ==> hex@ == "#ff0000"@,
    {
        match *self {
            Suit::Clubs | Suit::Spades => "#000000",
            Suit::Diamonds | Suit::Hearts => "#ff0000",
        }
    }

    /// The suit at position `index` of the order clubs, diamonds, hearts,
    /// spades.
    pub open spec fn spec_from_index(index: int) -> Suit {
        if index == 0 {
            Suit::Clubs
        } else if index == 1 {
            Suit::Diamonds
        } else if index == 2 {
            Suit::Hearts
        } else {
            Suit::Spades
        }
    }

    /// The suit at position `index` of the order clubs, diamonds, hearts,
    /// spades; nothing where there is no such position.
    pub fn from_index(index: u8) -> (suit: Option<Suit>)
        ensures
            suit is Some <==> index < SUITS,
            suit matches Some(found) ==> found == Suit::spec_from_index(index as int)
                && found.spec_index() == index,
    {
        if index == 0 {
            Some(Suit::Clubs)
        } else if index == 1 {
            Some(Suit::Diamonds)
        } else if index == 2 {
            Some(Suit::Hearts)
        } else if index == 3 {
            Some(Suit::Spades)
        } else {
            None
        }
    }
}

/// The value (rank) of a card, ordered from ace (low) to king (high).
#[derive(Debug, Clone, Copy, PartialEq, Eq, Structural)]
pub enum Value {
    Ace,
    Two,
    Three,
    Four,
    Five,
    Six,
    Seven,
    Eight,
    Nine,
    Ten,
    Jack,
    Queen,
    King,
}

impl Value {
    /// Numeric rank: ace is 1, the pip cards are their number, jack, queen
    /// and king are 11, 12 and 13.
    pub open spec fn spec_rank(self) -> int {
        match self {
            Value::Ace => 1,
            Value::Two => 2,
            Value::Three => 3,
            Value::Four => 4,
            Value::Five => 5,
            Value::Six => 6,
            Value::Seven => 7,
            Value::Eight => 8,
            Value::Nine => 9,
            Value::Ten => 10,
            Value::Jack => 11,
            Value::Queen => 12,
            Value::King => 13,
        }
    }

    /// Numeric rank of the value, from 1 (ace) to 13 (king).
    #[verifier::when_used_as_spec(spec_rank_u8)]
    pub fn rank(&self) -> (r: u8)
        ensures
            r == self.spec_rank(),
            1 <= r <= 13,
    {
        match *self {
            Value::Ace => 1,
            Value::Two => 2,
            Value::Three => 3,
            Value::Four => 4,
            Value::Five => 5,
            Value::Six => 6,
            Value::Seven => 7,
            Value::Eight => 8,
            Value::Nine => 9,
            Value::Ten => 10,
            Value::Jack => 11,
            Value::Queen => 12,
            Value::King => 13,
        }
    }

    /// The rank as a machine integer, for use where `rank` appears in a
    /// contract.
    pub open spec fn spec_rank_u8(&self) -> u8 {
        self.spec_rank() as u8
    }

    /// The value whose rank is `rank`.
    pub open spec fn spec_from_rank(rank: int) -> Value {
        if rank == 1 {
            Value::Ace
        } else if rank == 2 {
            Value::Two
        } else if rank == 3 {
            Value::Three
        } else if rank == 4 {
            Value::Four
        } else if rank == 5 {
            Value::Five
        } else if rank == 6 {
            Value::Six
        } else if rank == 7 {
            Value::Seven
        } else if rank == 8 {
            Value::Eight
        } else if rank == 9 {
            Value::Nine
        } else if rank == 10 {
            Value::Ten
        } else if rank == 11 {
            Value::Jack
        } else if rank == 12 {
            Value::Queen
        } else {
            Value::King
        }
    }

    /// The value whose rank is `rank`; nothing where no value has that
    /// rank.
    pub fn from_rank(rank: u8) -> (value: Option<Value>)
        ensures
            value is Some <==> 1 <= rank <= VALUES,
            value matches Some(found) ==> found == Value::spec_from_rank(rank as int)
                && found.spec_rank() == rank,
    {
        if rank == 1 {
            Some(Value::Ace)
        } else if rank == 2 {
            Some(Value::Two)
        } else if rank == 3 {
            Some(Value::Three)
        } else if rank == 4 {
            Some(Value::Four)
        } else if rank == 5 {
            Some(Value::Five)
        } else if rank == 6 {
            Some(Value::Six)
        } else if rank == 7 {
            Some(Value::Seven)
        } else if rank == 8 {
            Some(Value::Eight)
        } else if rank == 9 {
            Some(Value::Nine)
        } else if rank == 10 {
            Some(Value::Ten)
        } else if rank == 11 {
            Some(Value::Jack)
        } else if rank == 12 {
            Some(Value::Queen)
        } else if rank == 13 {
            Some(Value::King)
        } else {
            None
        }
    }
}

/// A card: a suit and a value.
#[derive(Debug, Clone, Copy, PartialEq, Eq, Structural)]
pub struct Card(pub Suit, pub Value);

/// Code point of the card back of the first suit, from which the playing
/// card symbols are counted.
pub const FIRST_CARD_BACK: u32 = 0x1f0a0;

impl Value {
    /// Place of the value among the playing card symbols of a suit: the
    /// rank up to the jack; queen and king come one later, behind the knight
    /// that this deck does not have.
    pub open spec fn spec_symbol_offset(self) -> int {
        if self.spec_rank() <= 11 {
            self.spec_rank()
        } else {
            self.spec_rank() + 1
        }
    }
}

impl Card {
    /// Code point of the symbol that shows the card: the symbols of a suit
    /// fill a row of sixteen code points, the rows follow each other in the
    /// order of the suits.
    pub open spec fn spec_code_point(self) -> int {
        FIRST_CARD_BACK + 16 * self.0.spec_index() + self.1.spec_symbol_offset()
    }

    /// Code point of the symbol that shows the card.
    pub fn code_point(&self) -> (code: u32)
        ensures
            code == self.spec_code_point(),
            0x1f0a1 <= code <= 0x1f0de,
    {
        let row: u32 = match self.0 {
            Suit::Clubs => 0x1f0a0,
            Suit::Diamonds => 0x1f0b0,
            Suit::Hearts => 0x1f0c0,
            Suit::Spades => 0x1f0d0,
        };
        let rank = self.1.rank();
        let offset: u32 = if rank <= 11 {
            rank as u32
        } else {
            rank as u32 + 1
        };
        row + offset
    }

    /// The symbol that shows the card: the character at its code point.
    pub open spec fn spec_glyph(self) -> char {
        self.spec_code_point() as char
    }

    /// The symbol that shows the card.
    pub fn glyph(&self) -> (symbol: char)
        ensures
            symbol == self.spec_glyph(),
            symbol as u32 == self.spec_code_point(),
    {
        char_from_code(self.code_point()).unwrap()
    }

    /// The card as text: its symbol, and nothing else.
    pub fn to_string(&self) -> (text: String)
        ensures
            text@ == seq![self.spec_glyph()],
    {
        let mut text = String::new();
        push_char(&mut text, self.glyph());
        text
    }
}

/// Number of suits.
pub const SUITS: usize = 4;

/// Number of values in each suit.
pub const VALUES: usize = 13;

/// The standard deck in its order out of the box: suit after suit in the
/// order clubs, diamonds, hearts, spades, each from ace to king.
pub open spec fn standard_deck() -> Seq<Card> {
    Seq::new(
        DECK_SIZE as nat,
        |i: int|
            Card(
                Suit::spec_from_index(i / VALUES as int),
                Value::spec_from_rank(i % VALUES as int + 1),
            ),
    )
}

/// Generate a full deck of 52 cards in the order of `standard_deck`.
pub fn full_deck() -> (deck: Vec<Card>)
    ensures
        deck@ == standard_deck(),
{
    let mut deck: Vec<Card> = Vec::new();
    let mut suit: u8 = 0;
    while suit < 4
        invariant
            suit <= 4,
            deck@ == standard_deck().take(suit * VALUES as int),
        decreases 4 - suit,
    {
        let mut rank: u8 = 1;
        while rank <= 13
            invariant
                suit < 4,
                1 <= rank <= 14,
                deck@ == standard_deck().take(suit * VALUES as int + rank - 1),
            decreases 14 - rank,
        {
            deck.push(Card(Suit::from_index(suit).unwrap(), Value::from_rank(rank).unwrap()));
            rank += 1;
        }
        suit += 1;
    }
    deck
}

/// A hand of cards.
#[derive(Debug, Clone, PartialEq, Eq)]
pub struct Hand(pub Vec<Card>);

/// A deck of cards: a personal draw pile, drawn from the front.
#[derive(Debug, Clone, PartialEq, Eq)]
pub struct Deck(pub Vec<Card>);

impl View for Hand {
    type V = Seq<Card>;

    open spec fn view(&self) -> Seq<Card> {
        self.0@
    }
}

impl View for Deck {
    type V = Seq<Card>;

    open spec fn view(&self) -> Seq<Card> {
        self.0@
    }
}

} // verus!
