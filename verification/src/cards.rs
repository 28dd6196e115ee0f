//! Letter cards: a player's hand of eight tiles-to-be.
//!
//! Hands are drawn in batches of eight — three vowels and five
//! consonants, each picked at random from its pool. A card is never
//! removed from the hand while in play: placing it marks it used, and
//! cancelling a placement marks it unused again.

use vstd::prelude::*;

verus! {

/// One letter card in a hand.
#[derive(Clone, Copy, PartialEq, Eq, Structural, Debug)]
pub struct Card {
    pub ch: char,
    pub used: bool,
}

impl Card {
    pub fn new(ch: char) -> (c: Card)
        ensures
            c == (Card { ch, used: false }),
    {
        Card { ch, used: false }
    }
}

pub open spec fn is_vowel(c: char) -> bool {
    c == 'a' || c == 'e' || c == 'i' || c == 'o' || c == 'u'
}

pub open spec fn is_consonant(c: char) -> bool {
    97 <= c as u32 <= 122 && !is_vowel(c)
}

/// A freshly drawn hand: eight unused cards, three vowels then five
/// consonants.
pub open spec fn fresh_hand(cards: Seq<Card>) -> bool {
    &&& cards.len() == 8
    &&& forall|i: int| 0 <= i < 8 ==> !(#[trigger] cards[i]).used
    &&& forall|i: int| 0 <= i < 3 ==> is_vowel((#[trigger] cards[i]).ch)
    &&& forall|i: int| 3 <= i < 8 ==> is_consonant((#[trigger] cards[i]).ch)
}

/// A hand that may be part-way through a turn: eight cards, some used.
pub open spec fn hand_wf(cards: Seq<Card>) -> bool {
    cards.len() == 8
}

/// One vowel, drawn at random: rejection sampling keeps the draw
/// uniform over the pool (255 = 51 * 5, so only the top byte value is
/// redrawn; the bounded retry is for termination only).
fn pick_vowel() -> (c: char)
    ensures
        is_vowel(c),
{
    let mut r: u8 = rand::random::<u8>();
    let mut tries: u8 = 0;
    while r >= 255 && tries < 100
        decreases 100 - tries,
    {
        r = rand::random::<u8>();
        tries = tries + 1;
    }
    match r % 5 {
        0 => 'a',
        1 => 'e',
        2 => 'i',
        3 => 'o',
        _ => 'u',
    }
}

/// One consonant, drawn at random: rejection sampling keeps the draw
/// uniform over the pool (252 = 12 * 21, so the top four byte values
/// are redrawn; the bounded retry is for termination only).
fn pick_consonant() -> (c: char)
    ensures
        is_consonant(c),
{
    let mut r: u8 = rand::random::<u8>();
    let mut tries: u8 = 0;
    while r >= 252 && tries < 100
        decreases 100 - tries,
    {
        r = rand::random::<u8>();
        tries = tries + 1;
    }
    match r % 21 {
        0 => 'b',
        1 => 'c',
        2 => 'd',
        3 => 'f',
        4 => 'g',
        5 => 'h',
        6 => 'j',
        7 => 'k',
        8 => 'l',
        9 => 'm',
        10 => 'n',
        11 => 'p',
        12 => 'q',
        13 => 'r',
        14 => 's',
        15 => 't',
        16 => 'v',
        17 => 'w',
        18 => 'x',
        19 => 'y',
        _ => 'z',
    }
}

/// Draws a full fresh hand: three vowels, then five consonants.
pub fn generate_hand() -> (cards: Vec<Card>)
    ensures
        fresh_hand(cards@),
{
    let mut cards: Vec<Card> = Vec::new();
    let mut i: usize = 0;
    while i < 3
        invariant
            cards@.len() == i,
            i <= 3,
            forall|j: int| 0 <= j < i ==> !(#[trigger] cards@[j]).used,
            forall|j: int| 0 <= j < i ==> is_vowel((#[trigger] cards@[j]).ch),
        decreases 3 - i,
    {
        cards.push(Card::new(pick_vowel()));
        i = i + 1;
    }
    let mut i: usize = 3;
    while i < 8
        invariant
            cards@.len() == i,
            3 <= i <= 8,
            forall|j: int| 0 <= j < i ==> !(#[trigger] cards@[j]).used,
            forall|j: int| 0 <= j < 3 ==> is_vowel((#[trigger] cards@[j]).ch),
            forall|j: int| 3 <= j < i ==> is_consonant((#[trigger] cards@[j]).ch),
        decreases 8 - i,
    {
        cards.push(Card::new(pick_consonant()));
        i = i + 1;
    }
    cards
}

} // verus!
