use vstd::prelude::*;
use vstd::multiset::Multiset;
use crate::card::{Card, CardId, MAX_CARDS, id_bag};
use crate::board::{Board, BoardModel};

verus! {

/// Everything one side owns: draw pile, hand, board and round bookkeeping.
#[derive(Clone, Debug)]
pub struct PlayerState {
    /// Draw pile; cards are drawn from its end.
    pub deck: Vec<Card>,
    pub hand: Vec<Card>,
    pub board: Board,
    /// Set once the player passes; cleared when the round ends.
    pub passed: bool,
    pub rounds_won: u8,
}

/// Mathematical model of a player's state.
pub ghost struct PlayerModel {
    pub deck: Seq<Card>,
    pub hand: Seq<Card>,
    pub board: BoardModel,
    pub passed: bool,
    pub rounds_won: u8,
}

impl PlayerModel {
    /// A player holding `deck` and nothing else.
    pub open spec fn fresh(deck: Seq<Card>) -> PlayerModel {
        PlayerModel {
            deck,
            hand: Seq::empty(),
            board: BoardModel::empty(),
            passed: false,
            rounds_won: 0,
        }
    }

    /// Number of cards the player holds in all three zones.
    pub open spec fn size(self) -> nat {
        self.deck.len() + self.hand.len() + self.board.cards().len()
    }

    /// Identifiers of every card the player holds.
    pub open spec fn ids(self) -> Multiset<CardId> {
        id_bag(self.deck).add(id_bag(self.hand)).add(self.board.ids())
    }

    /// Has nothing left to do this round: passed, or no card to play.
    pub open spec fn done(self) -> bool {
        self.passed || self.hand.len() == 0
    }

    /// Moves up to `n` cards, one at a time, from the end of the deck to the
    /// end of the hand; stops early once the deck is empty.
    pub open spec fn draw(self, n: nat) -> PlayerModel
        decreases n,
    {
        if n == 0 || self.deck.len() == 0 {
            self
        } else {
            PlayerModel {
                deck: self.deck.drop_last(),
                hand: self.hand.push(self.deck.last()),
                ..self
            }.draw((n - 1) as nat)
        }
    }
}

/// What drawing does to the counts: `min(n, deck)` cards move from deck to
/// hand, and nothing else changes.
pub proof fn lemma_draw_counts(p: PlayerModel, n: nat)
    ensures
        ({
            let k = if n <= p.deck.len() { n } else { p.deck.len() };
            &&& p.draw(n).deck.len() == p.deck.len() - k
            &&& p.draw(n).hand.len() == p.hand.len() + k
            &&& p.draw(n).deck == p.deck.take(p.deck.len() - k)
            &&& p.draw(n).hand.take(p.hand.len() as int) == p.hand
            &&& p.draw(n).board == p.board
            &&& p.draw(n).passed == p.passed
            &&& p.draw(n).rounds_won == p.rounds_won
            &&& p.draw(n).size() == p.size()
        }),
    decreases n,
{
    if n > 0 && p.deck.len() > 0 {
        let q = PlayerModel { deck: p.deck.drop_last(), hand: p.hand.push(p.deck.last()), ..p };
        lemma_draw_counts(q, (n - 1) as nat);
        assert(q.deck.take(q.deck.len() - if (n - 1) as nat <= q.deck.len() { (n - 1) as nat } else { q.deck.len() })
            =~= p.deck.take(p.deck.len() - if n <= p.deck.len() { n } else { p.deck.len() }));
        assert(q.draw((n - 1) as nat).hand.take(p.hand.len() as int)
            =~= q.draw((n - 1) as nat).hand.take(q.hand.len() as int).take(p.hand.len() as int));
        assert(q.hand.take(p.hand.len() as int) =~= p.hand);
    } else {
        assert(p.deck.take(p.deck.len() as int) =~= p.deck);
        assert(p.hand.take(p.hand.len() as int) =~= p.hand);
    }
}

impl View for PlayerState {
    type V = PlayerModel;

    open spec fn view(&self) -> PlayerModel {
        PlayerModel {
            deck: self.deck@,
            hand: self.hand@,
            board: self.board@,
            passed: self.passed,
            rounds_won: self.rounds_won,
        }
    }
}

impl PlayerState {
    /// Summed power of the player's board.
    pub fn total_power(&self) -> (r: u32)
        requires
            self@.board.cards().len() <= MAX_CARDS,
        ensures
            r == self@.board.total(),
    {
        self.board.total_power()
    }

    /// Draws up to `n` cards; draws fewer, without error, when the deck runs out.
    pub fn draw(&mut self, n: usize)
        ensures
            final(self)@ == old(self)@.draw(n as nat),
    {
        let mut i: usize = 0;
        while i < n
            invariant
                i <= n,
                old(self)@.draw(n as nat) == self@.draw((n - i) as nat),
            decreases n - i,
        {
            match self.deck.pop() {
                Some(card) => {
                    self.hand.push(card);
                },
                None => {
                    return;
                },
            }
            i = i + 1;
        }
    }
}

} // verus!
