use vstd::prelude::*;
use vstd::multiset::Multiset;
use vstd::string::StringExecFns;
use crate::card::{Card, CardId, CardKind, PlayerId, MAX_CARDS};
use crate::board::{Board, BoardModel};
use crate::player::{PlayerState, PlayerModel, lemma_draw_counts};

verus! {

/// Cards dealt to each player when the match starts.
pub const OPENING_HAND: usize = 7;

/// Extra cards each player draws when the first round ends.
pub const BONUS_AFTER_FIRST: usize = 2;

/// Extra cards each player draws when the second round ends.
pub const BONUS_AFTER_SECOND: usize = 1;

/// Cards a player draws after playing a spy.
pub const SPY_DRAW: usize = 2;

/// Round wins that end the match.
pub const WINS_NEEDED: u8 = 2;

/// Rounds in a match.
pub const LAST_ROUND: u8 = 3;

/// The two kinds of move.
#[derive(Clone, Debug, PartialEq, Eq, Structural)]
pub enum Action {
    /// Play the card with this identifier from the current player's hand.
    PlayCard(CardId),
    Pass,
}

/// Where a match stands.
#[derive(Clone, Copy, Debug, PartialEq, Eq, Structural)]
pub enum Outcome {
    InProgress,
    /// Finished, won by this side.
    Decided(PlayerId),
    /// Finished with as many round wins on each side.
    Tied,
}

#[derive(Clone, Debug)]
pub struct GameState {
    pub player1: PlayerState,
    pub player2: PlayerState,
    /// The side to act.
    pub current_player: PlayerId,
    /// 1, 2 or 3.
    pub round: u8,
    /// Set once the match is over; no action changes the state afterwards.
    pub finished: bool,
}

/// Mathematical model of a match.
pub ghost struct GameModel {
    pub player1: PlayerModel,
    pub player2: PlayerModel,
    pub current_player: PlayerId,
    pub round: u8,
    pub finished: bool,
}

/// Index of the first card of `hand` with identifier `id`, if there is one.
pub open spec fn first_index(hand: Seq<Card>, id: CardId) -> Option<int> {
    if exists|i: int| 0 <= i < hand.len() && hand[i].id == id {
        Some(
            choose|i: int|
                0 <= i < hand.len() && hand[i].id == id && forall|j: int|
                    0 <= j < i ==> hand[j].id != id,
        )
    } else {
        None
    }
}

/// The card `c` leaves `me`'s hand at index `i` and is placed: a spy on the
/// board of `other`, after which `me` draws; any other card on `me`'s board.
pub open spec fn place(me: PlayerModel, other: PlayerModel, i: int) -> (PlayerModel, PlayerModel) {
    let c = me.hand[i];
    let me1 = PlayerModel { hand: me.hand.remove(i), ..me };
    match c.kind {
        CardKind::Spy => (
            me1.draw(SPY_DRAW as nat),
            PlayerModel { board: other.board.push(c), ..other },
        ),
        CardKind::Unit => (PlayerModel { board: me1.board.push(c), ..me1 }, other),
    }
}

/// Extra cards drawn by each player when round `round` ends.
pub open spec fn round_bonus(round: u8) -> nat {
    if round == 1 {
        BONUS_AFTER_FIRST as nat
    } else if round == 2 {
        BONUS_AFTER_SECOND as nat
    } else {
        0
    }
}

impl GameModel {
    pub open spec fn player(self, id: PlayerId) -> PlayerModel {
        match id {
            PlayerId::One => self.player1,
            PlayerId::Two => self.player2,
        }
    }

    pub open spec fn with_player(self, id: PlayerId, p: PlayerModel) -> GameModel {
        match id {
            PlayerId::One => GameModel { player1: p, ..self },
            PlayerId::Two => GameModel { player2: p, ..self },
        }
    }

    /// The state right after dealing the opening hands.
    pub open spec fn start(deck1: Seq<Card>, deck2: Seq<Card>) -> GameModel {
        GameModel {
            player1: PlayerModel::fresh(deck1).draw(OPENING_HAND as nat),
            player2: PlayerModel::fresh(deck2).draw(OPENING_HAND as nat),
            current_player: PlayerId::One,
            round: 1,
            finished: false,
        }
    }

    /// The moves open to the current player: one per card in hand, in hand
    /// order, then a single pass; none once the match is over or the player
    /// has passed.
    pub open spec fn legal_actions(self) -> Seq<Action> {
        if self.finished || self.player(self.current_player).passed {
            Seq::empty()
        } else {
            self.player(self.current_player).hand.map_values(|c: Card| Action::PlayCard(c.id)).push(
                Action::Pass,
            )
        }
    }

    pub open spec fn both_done(self) -> bool {
        self.player1.done() && self.player2.done()
    }

    /// The current player plays the card with identifier `id`, which must be
    /// in their hand; the turn does not move yet.
    pub open spec fn play_card(self, id: CardId) -> GameModel {
        let me = self.current_player;
        let i = first_index(self.player(me).hand, id).unwrap();
        let (m, o) = place(self.player(me), self.player(me.other()), i);
        self.with_player(me, m).with_player(me.other(), o)
    }

    /// The current player passes; the turn does not move yet.
    pub open spec fn pass(self) -> GameModel {
        self.with_player(
            self.current_player,
            PlayerModel { passed: true, ..self.player(self.current_player) },
        )
    }

    /// `p` with one more round win if `won`.
    pub open spec fn score(p: PlayerModel, won: bool) -> PlayerModel {
        PlayerModel {
            rounds_won: if won {
                (p.rounds_won + 1) as u8
            } else {
                p.rounds_won
            },
            ..p
        }
    }

    /// A player at the end of the round: `won` more round wins, bonus cards
    /// drawn, board discarded, pass flag cleared.
    pub open spec fn next_round_player(p: PlayerModel, won: bool, round: u8) -> PlayerModel {
        let p1 = GameModel::score(p, won);
        PlayerModel { board: BoardModel::empty(), passed: false, ..p1.draw(round_bonus(round)) }
    }

    /// Scores the round (the strictly stronger board wins it), deals the bonus
    /// cards, clears boards and passes, and then ends the match or opens the
    /// next round with player one to act.
    pub open spec fn end_round(self) -> GameModel {
        let t1 = self.player1.board.total();
        let t2 = self.player2.board.total();
        let p1 = GameModel::next_round_player(self.player1, t1 > t2, self.round);
        let p2 = GameModel::next_round_player(self.player2, t2 > t1, self.round);
        if p1.rounds_won == WINS_NEEDED || p2.rounds_won == WINS_NEEDED || self.round == LAST_ROUND {
            GameModel { player1: p1, player2: p2, finished: true, ..self }
        } else {
            GameModel {
                player1: p1,
                player2: p2,
                round: (self.round + 1) as u8,
                current_player: PlayerId::One,
                ..self
            }
        }
    }

    /// After a move: the round ends if both players are done; otherwise the
    /// other player is to act if they still have something to do this
    /// round, and the same player acts again if not.
    pub open spec fn after_move(self) -> GameModel {
        if self.both_done() {
            self.end_round()
        } else if self.player(self.current_player.other()).done() {
            self
        } else {
            GameModel { current_player: self.current_player.other(), ..self }
        }
    }

    /// Whether `a` changes anything: the match is on, and a played card is
    /// in the current player's hand.
    pub open spec fn takes_effect(self, a: Action) -> bool {
        !self.finished && match a {
            Action::PlayCard(id) => first_index(self.player(self.current_player).hand, id) is Some,
            Action::Pass => true,
        }
    }

    /// The state after action `a`.
    pub open spec fn step(self, a: Action) -> GameModel {
        if !self.takes_effect(a) {
            self
        } else {
            self.moved(a).after_move()
        }
    }

    /// Identifiers of every card in the match.
    pub open spec fn ids(self) -> Multiset<CardId> {
        self.player1.ids().add(self.player2.ids())
    }

    /// Identifiers of the cards on the two boards.
    pub open spec fn board_ids(self) -> Multiset<CardId> {
        self.player1.board.ids().add(self.player2.board.ids())
    }

    /// The state once `a` is made, before the turn moves or the round ends.
    pub open spec fn moved(self, a: Action) -> GameModel {
        match a {
            Action::PlayCard(id) => self.play_card(id),
            Action::Pass => self.pass(),
        }
    }

    /// Whether `a` ends the round.
    pub open spec fn ends_round(self, a: Action) -> bool {
        self.takes_effect(a) && self.moved(a).both_done()
    }

    /// Cards that action `a` takes out of the match: the boards, when it ends
    /// the round.
    pub open spec fn discarded(self, a: Action) -> Multiset<CardId> {
        if self.ends_round(a) {
            self.moved(a).board_ids()
        } else {
            Multiset::empty()
        }
    }

    pub open spec fn size(self) -> nat {
        self.player1.size() + self.player2.size()
    }

    /// The invariant of every reachable state.
    pub open spec fn wf(self) -> bool {
        &&& 1 <= self.round <= LAST_ROUND
        &&& self.player1.rounds_won <= WINS_NEEDED
        &&& self.player2.rounds_won <= WINS_NEEDED
        &&& !self.finished ==> self.player1.rounds_won < WINS_NEEDED
            && self.player2.rounds_won < WINS_NEEDED
        &&& self.size() <= MAX_CARDS
    }

    /// Where the match stands.
    pub open spec fn outcome(self) -> Outcome {
        if !self.finished {
            Outcome::InProgress
        } else if self.player1.rounds_won > self.player2.rounds_won {
            Outcome::Decided(PlayerId::One)
        } else if self.player1.rounds_won < self.player2.rounds_won {
            Outcome::Decided(PlayerId::Two)
        } else {
            Outcome::Tied
        }
    }

    /// The match result: the side with more round wins, once finished.
    pub open spec fn winner(self) -> Option<PlayerId> {
        if !self.finished || self.player1.rounds_won == self.player2.rounds_won {
            None
        } else if self.player1.rounds_won > self.player2.rounds_won {
            Some(PlayerId::One)
        } else {
            Some(PlayerId::Two)
        }
    }
}

impl View for GameState {
    type V = GameModel;

    open spec fn view(&self) -> GameModel {
        GameModel {
            player1: self.player1@,
            player2: self.player2@,
            current_player: self.current_player,
            round: self.round,
            finished: self.finished,
        }
    }
}

/// A first index, where there is one, lies in `hand`, holds `id`, and no
/// earlier card holds `id`.
pub proof fn lemma_first_index(hand: Seq<Card>, id: CardId)
    ensures
        match first_index(hand, id) {
            Some(i) => 0 <= i < hand.len() && hand[i].id == id && forall|j: int|
                0 <= j < i ==> hand[j].id != id,
            None => forall|j: int| 0 <= j < hand.len() ==> hand[j].id != id,
        },
{
    if exists|i: int| 0 <= i < hand.len() && hand[i].id == id {
        let k = choose|i: int| 0 <= i < hand.len() && hand[i].id == id;
        lemma_earliest(hand, id, k);
    }
}

proof fn lemma_earliest(hand: Seq<Card>, id: CardId, k: int)
    requires
        0 <= k < hand.len(),
        hand[k].id == id,
    ensures
        exists|i: int|
            0 <= i < hand.len() && hand[i].id == id && forall|j: int| 0 <= j < i ==> hand[j].id != id,
    decreases k,
{
    if exists|j: int| 0 <= j < k && hand[j].id == id {
        let j = choose|j: int| 0 <= j < k && hand[j].id == id;
        lemma_earliest(hand, id, j);
    } else {
        assert(forall|j: int| 0 <= j < k ==> hand[j].id != id);
    }
}

/// Position of the first card of `hand` with identifier `id`.
fn position_in(hand: &Vec<Card>, id: CardId) -> (r: Option<usize>)
    ensures
        match r {
            Some(i) => first_index(hand@, id) == Some(i as int),
            None => first_index(hand@, id) is None,
        },
{
    let mut i: usize = 0;
    while i < hand.len()
        invariant
            i <= hand@.len(),
            forall|j: int| 0 <= j < i ==> hand@[j].id != id,
        decreases hand@.len() - i,
    {
        if hand[i].id == id {
            assert(0 <= i < hand@.len() && hand@[i as int].id == id);
            return Some(i);
        }
        i = i + 1;
    }
    None
}

/// `me` plays the card with identifier `id` from their hand, if it is there.
fn play_from(me: &mut PlayerState, other: &mut PlayerState, id: CardId) -> (found: bool)
    ensures
        found == first_index(old(me)@.hand, id) is Some,
        found ==> (final(me)@, final(other)@) == place(
            old(me)@,
            old(other)@,
            first_index(old(me)@.hand, id).unwrap(),
        ),
        !found ==> final(me)@ == old(me)@ && final(other)@ == old(other)@,
{
    let r = position_in(&me.hand, id);
    proof {
        lemma_first_index(me.hand@, id);
    }
    match r {
        None => false,
        Some(i) => {
            let card = me.hand.remove(i);
            match card.kind {
                CardKind::Spy => {
                    other.board.push_card(card);
                    me.draw(SPY_DRAW);
                },
                CardKind::Unit => {
                    me.board.push_card(card);
                },
            }
            true
        },
    }
}

/// The card with identifier `id` in the current player's hand, if any.
pub fn find_card_in_hand(game: &GameState, id: CardId) -> (r: Option<&Card>)
    ensures
        match first_index(game@.player(game.current_player).hand, id) {
            Some(i) => r == Some(&game@.player(game.current_player).hand[i]),
            None => r is None,
        },
{
    let player = match game.current_player {
        PlayerId::One => &game.player1,
        PlayerId::Two => &game.player2,
    };
    let r = position_in(&player.hand, id);
    proof {
        lemma_first_index(player.hand@, id);
    }
    match r {
        Some(i) => Some(&player.hand[i]),
        None => None,
    }
}

impl GameState {
    /// Starts a match: each side gets its deck and draws its opening hand
    /// (fewer cards where its deck is shorter); player one acts first.
    pub fn new_with_decks(deck1: Vec<Card>, deck2: Vec<Card>) -> (r: GameState)
        requires
            deck1@.len() + deck2@.len() <= MAX_CARDS,
        ensures
            r@ == GameModel::start(deck1@, deck2@),
            r@.wf(),
    {
        let ghost (d1, d2) = (deck1@, deck2@);
        let mut p1 = PlayerState {
            deck: deck1,
            hand: Vec::new(),
            board: Board::new(),
            passed: false,
            rounds_won: 0,
        };
        let mut p2 = PlayerState {
            deck: deck2,
            hand: Vec::new(),
            board: Board::new(),
            passed: false,
            rounds_won: 0,
        };
        p1.draw(OPENING_HAND);
        p2.draw(OPENING_HAND);
        proof {
            lemma_draw_counts(PlayerModel::fresh(d1), OPENING_HAND as nat);
            lemma_draw_counts(PlayerModel::fresh(d2), OPENING_HAND as nat);
        }
        GameState {
            player1: p1,
            player2: p2,
            current_player: PlayerId::One,
            round: 1,
            finished: false,
        }
    }

    /// Summed power of the board of `id`.
    pub fn total_power(&self, id: PlayerId) -> (r: u32)
        requires
            self@.size() <= MAX_CARDS,
        ensures
            r == self@.player(id).board.total(),
    {
        match id {
            PlayerId::One => self.player1.total_power(),
            PlayerId::Two => self.player2.total_power(),
        }
    }

    pub fn rounds_won(&self, id: PlayerId) -> (r: u8)
        ensures
            r == self@.player(id).rounds_won,
    {
        match id {
            PlayerId::One => self.player1.rounds_won,
            PlayerId::Two => self.player2.rounds_won,
        }
    }

    /// The side with strictly more round wins once the match is finished;
    /// `None` while it is on and when it ends level. `outcome` tells these
    /// two apart.
    pub fn winner(&self) -> (r: Option<PlayerId>)
        ensures
            r == self@.winner(),
    {
        if !self.finished {
            return None;
        }
        if self.player1.rounds_won > self.player2.rounds_won {
            Some(PlayerId::One)
        } else if self.player1.rounds_won < self.player2.rounds_won {
            Some(PlayerId::Two)
        } else {
            None
        }
    }

    /// Where the match stands: still on, won by a side, or ended level.
    pub fn outcome(&self) -> (r: Outcome)
        ensures
            r == self@.outcome(),
    {
        if !self.finished {
            Outcome::InProgress
        } else if self.player1.rounds_won > self.player2.rounds_won {
            Outcome::Decided(PlayerId::One)
        } else if self.player1.rounds_won < self.player2.rounds_won {
            Outcome::Decided(PlayerId::Two)
        } else {
            Outcome::Tied
        }
    }

    /// The moves open to the current player.
    pub fn legal_actions(&self) -> (r: Vec<Action>)
        ensures
            r@ == self@.legal_actions(),
    {
        if self.finished {
            return Vec::new();
        }
        let player = match self.current_player {
            PlayerId::One => &self.player1,
            PlayerId::Two => &self.player2,
        };
        if player.passed {
            return Vec::new();
        }
        let mut actions: Vec<Action> = Vec::new();
        let mut i: usize = 0;
        while i < player.hand.len()
            invariant
                i <= player.hand@.len(),
                player@ == self@.player(self.current_player),
                actions@ == player.hand@.take(i as int).map_values(|c: Card| Action::PlayCard(c.id)),
            decreases player.hand@.len() - i,
        {
            actions.push(Action::PlayCard(player.hand[i].id));
            i = i + 1;
            assert(actions@ =~= player.hand@.take(i as int).map_values(
                |c: Card| Action::PlayCard(c.id),
            ));
        }
        assert(player.hand@.take(i as int) =~= player.hand@);
        actions.push(Action::Pass);
        actions
    }

    /// Whether both players have passed or emptied their hands.
    fn both_players_done(&self) -> (r: bool)
        ensures
            r == self@.both_done(),
    {
        (self.player1.passed || self.player1.hand.len() == 0) && (self.player2.passed
            || self.player2.hand.len() == 0)
    }

    /// Applies `action` for the current player. Nothing changes once the
    /// match is finished, nor for a card that is not in the current
    /// player's hand.
    pub fn apply_action(&mut self, action: Action)
        requires
            old(self)@.wf(),
        ensures
            final(self)@ == old(self)@.step(action),
            final(self)@.wf(),
    {
        if self.finished {
            return;
        }
        let ghost g0 = self@;
        match action {
            Action::PlayCard(id) => {
                let found = match self.current_player {
                    PlayerId::One => play_from(&mut self.player1, &mut self.player2, id),
                    PlayerId::Two => play_from(&mut self.player2, &mut self.player1, id),
                };
                if !found {
                    return;
                }
                proof {
                    lemma_first_index(g0.player(g0.current_player).hand, id);
                    lemma_place_size(g0.player(g0.current_player), g0.player(g0.current_player.other()),
                        first_index(g0.player(g0.current_player).hand, id).unwrap());
                }
                assert(self@ == g0.play_card(id));
                assert(self@.size() == g0.size());
            },
            Action::Pass => {
                match self.current_player {
                    PlayerId::One => self.player1.passed = true,
                    PlayerId::Two => self.player2.passed = true,
                }
                assert(self@ == g0.pass());
            },
        }
        assert(self@.wf());
        if self.both_players_done() {
            self.end_round();
        } else {
            let other = match self.current_player {
                PlayerId::One => PlayerId::Two,
                PlayerId::Two => PlayerId::One,
            };
            let other_done = match other {
                PlayerId::One => self.player1.passed || self.player1.hand.len() == 0,
                PlayerId::Two => self.player2.passed || self.player2.hand.len() == 0,
            };
            if !other_done {
                self.current_player = other;
            }
        }
    }

    /// Scores the round and opens the next one, or ends the match.
    fn end_round(&mut self)
        requires
            old(self)@.wf(),
            !old(self).finished,
        ensures
            final(self)@ == old(self)@.end_round(),
            final(self)@.wf(),
    {
        let ghost g0 = self@;
        let p1 = self.player1.total_power();
        let p2 = self.player2.total_power();
        if p1 > p2 {
            self.player1.rounds_won = self.player1.rounds_won + 1;
        } else if p2 > p1 {
            self.player2.rounds_won = self.player2.rounds_won + 1;
        }
        let ghost (q1, q2) = (self.player1@, self.player2@);
        if self.round == 1 {
            self.player1.draw(BONUS_AFTER_FIRST);
            self.player2.draw(BONUS_AFTER_FIRST);
        } else if self.round == 2 {
            self.player1.draw(BONUS_AFTER_SECOND);
            self.player2.draw(BONUS_AFTER_SECOND);
        }
        proof {
            lemma_draw_counts(q1, round_bonus(g0.round));
            lemma_draw_counts(q2, round_bonus(g0.round));
        }
        self.player1.board.clear();
        self.player2.board.clear();
        self.player1.passed = false;
        self.player2.passed = false;
        if self.player1.rounds_won == WINS_NEEDED || self.player2.rounds_won == WINS_NEEDED
            || self.round == LAST_ROUND {
            self.finished = true;
        } else {
            self.round = self.round + 1;
            self.current_player = PlayerId::One;
        }
    }
}

/// Placing a card keeps the number of cards the two players hold together.
pub proof fn lemma_place_size(me: PlayerModel, other: PlayerModel, i: int)
    requires
        0 <= i < me.hand.len(),
    ensures
        place(me, other, i).0.size() + place(me, other, i).1.size() == me.size() + other.size(),
        place(me, other, i).0.rounds_won == me.rounds_won,
        place(me, other, i).1.rounds_won == other.rounds_won,
{
    let c = me.hand[i];
    let me1 = PlayerModel { hand: me.hand.remove(i), ..me };
    lemma_draw_counts(me1, SPY_DRAW as nat);
    assert(me.board.push(c).cards().len() == me.board.cards().len() + 1);
    assert(other.board.push(c).cards().len() == other.board.cards().len() + 1);
}

/// The name of the side to act, given the two players' names.
pub fn current_player_name(game: &GameState, name1: &str, name2: &str) -> (r: String)
    ensures
        r@ == match game.current_player {
            PlayerId::One => name1@,
            PlayerId::Two => name2@,
        },
{
    match game.current_player {
        PlayerId::One => String::from_str(name1),
        PlayerId::Two => String::from_str(name2),
    }
}

} // verus!
