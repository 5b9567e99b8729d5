use vstd::prelude::*;
use vstd::multiset::Multiset;

verus! {

/// Identifier of a card, unique within a match.
pub type CardId = u32;

/// Most cards a match may hold: with at most 255 power each, their summed
/// power still fits in a `u32` (255 * 16_843_009 == u32::MAX).
pub const MAX_CARDS: usize = 16_843_009;

/// The lane a card is placed in. It only organises the board.
#[derive(Copy, Clone, Debug, PartialEq, Eq, Structural)]
pub enum Row {
    Melee,
    Ranged,
    Siege,
}

#[derive(Copy, Clone, Debug, PartialEq, Eq, Structural)]
pub enum CardKind {
    /// Goes to the board of the player who plays it.
    Unit,
    /// Goes to the opponent's board and lets the player draw two cards.
    Spy,
}

#[derive(Clone, Debug)]
pub struct Card {
    pub id: CardId,
    pub name: String,
    pub power: u8,
    pub kind: CardKind,
    pub row: Row,
}

/// One side of the match.
#[derive(Copy, Clone, Debug, PartialEq, Eq, Structural)]
pub enum PlayerId {
    One,
    Two,
}

impl PlayerId {
    pub open spec fn other(self) -> PlayerId {
        match self {
            PlayerId::One => PlayerId::Two,
            PlayerId::Two => PlayerId::One,
        }
    }
}

/// Summed power of a sequence of cards.
pub open spec fn power_sum(s: Seq<Card>) -> nat
    decreases s.len(),
{
    if s.len() == 0 {
        0
    } else {
        power_sum(s.drop_last()) + s.last().power as nat
    }
}

/// The identifiers of a sequence of cards, in order.
pub open spec fn ids_of(s: Seq<Card>) -> Seq<CardId> {
    s.map_values(|c: Card| c.id)
}

/// The identifiers of a sequence of cards, as a multiset.
pub open spec fn id_bag(s: Seq<Card>) -> Multiset<CardId> {
    ids_of(s).to_multiset()
}

pub proof fn lemma_power_sum_bound(s: Seq<Card>)
    ensures
        power_sum(s) <= 255 * s.len(),
    decreases s.len(),
{
    if s.len() > 0 {
        lemma_power_sum_bound(s.drop_last());
    }
}

pub proof fn lemma_power_sum_push(s: Seq<Card>, c: Card)
    ensures
        power_sum(s.push(c)) == power_sum(s) + c.power as nat,
{
    assert(s.push(c).drop_last() =~= s);
}

} // verus!
