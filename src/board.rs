use vstd::prelude::*;
use vstd::multiset::Multiset;
use crate::card::{Card, CardId, Row, id_bag, MAX_CARDS, power_sum, lemma_power_sum_bound, lemma_power_sum_push};

verus! {

/// The cards a player has on the table, one ordered sequence per row.
#[derive(Clone, Debug)]
pub struct Board {
    pub melee: Vec<Card>,
    pub ranged: Vec<Card>,
    pub siege: Vec<Card>,
}

/// Mathematical model of a board.
pub ghost struct BoardModel {
    pub melee: Seq<Card>,
    pub ranged: Seq<Card>,
    pub siege: Seq<Card>,
}

impl BoardModel {
    pub open spec fn empty() -> BoardModel {
        BoardModel { melee: Seq::empty(), ranged: Seq::empty(), siege: Seq::empty() }
    }

    /// Every card on the board, melee first, then ranged, then siege.
    pub open spec fn cards(self) -> Seq<Card> {
        self.melee + self.ranged + self.siege
    }

    /// Identifiers of the cards on the board.
    pub open spec fn ids(self) -> Multiset<CardId> {
        id_bag(self.melee).add(id_bag(self.ranged)).add(id_bag(self.siege))
    }

    pub open spec fn total(self) -> nat {
        power_sum(self.melee) + power_sum(self.ranged) + power_sum(self.siege)
    }

    /// The board with `c` appended to the row it names.
    pub open spec fn push(self, c: Card) -> BoardModel {
        match c.row {
            Row::Melee => BoardModel { melee: self.melee.push(c), ..self },
            Row::Ranged => BoardModel { ranged: self.ranged.push(c), ..self },
            Row::Siege => BoardModel { siege: self.siege.push(c), ..self },
        }
    }
}

impl View for Board {
    type V = BoardModel;

    open spec fn view(&self) -> BoardModel {
        BoardModel { melee: self.melee@, ranged: self.ranged@, siege: self.siege@ }
    }
}

/// Summed power of one row.
fn row_power(cards: &Vec<Card>) -> (r: u32)
    requires
        cards@.len() <= MAX_CARDS,
    ensures
        r == power_sum(cards@),
{
    let mut sum: u32 = 0;
    let mut i: usize = 0;
    while i < cards.len()
        invariant
            i <= cards@.len() <= MAX_CARDS,
            sum == power_sum(cards@.take(i as int)),
        decreases cards@.len() - i,
    {
        proof {
            lemma_power_sum_push(cards@.take(i as int), cards@[i as int]);
            assert(cards@.take(i as int).push(cards@[i as int]) =~= cards@.take(i + 1));
            lemma_power_sum_bound(cards@.take(i + 1));
            assert(255 * (i + 1) <= 255 * MAX_CARDS) by (nonlinear_arith)
                requires i + 1 <= MAX_CARDS;
        }
        sum = sum + cards[i].power as u32;
        i = i + 1;
    }
    assert(cards@.take(i as int) =~= cards@);
    sum
}

impl Board {
    pub fn new() -> (b: Board)
        ensures
            b@ == BoardModel::empty(),
    {
        Board { melee: Vec::new(), ranged: Vec::new(), siege: Vec::new() }
    }

    /// Summed power of every card on the board.
    pub fn total_power(&self) -> (r: u32)
        requires
            self@.cards().len() <= MAX_CARDS,
        ensures
            r == self@.total(),
    {
        let a = row_power(&self.melee);
        let b = row_power(&self.ranged);
        let c = row_power(&self.siege);
        proof {
            lemma_power_sum_bound(self.melee@);
            lemma_power_sum_bound(self.ranged@);
            lemma_power_sum_bound(self.siege@);
            let (x, y, z) = (self.melee@.len(), self.ranged@.len(), self.siege@.len());
            assert(255 * x + 255 * y + 255 * z <= 255 * MAX_CARDS) by (nonlinear_arith)
                requires x + y + z <= MAX_CARDS;
        }
        a + b + c
    }

    /// Places `card` at the end of the row it names.
    pub fn push_card(&mut self, card: Card)
        ensures
            final(self)@ == old(self)@.push(card),
    {
        match card.row {
            Row::Melee => self.melee.push(card),
            Row::Ranged => self.ranged.push(card),
            Row::Siege => self.siege.push(card),
        }
    }

    /// Discards every card on the board.
    pub fn clear(&mut self)
        ensures
            final(self)@ == BoardModel::empty(),
    {
        self.melee.clear();
        self.ranged.clear();
        self.siege.clear();
    }
}

} // verus!
