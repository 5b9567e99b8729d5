//! Properties of the match as a whole, stated over the models and proved.
use vstd::prelude::*;
use vstd::multiset::Multiset;
use vstd::seq_lib::{to_multiset_build, to_multiset_remove};
use crate::card::{Card, CardId, CardKind, PlayerId, id_bag, ids_of, power_sum, lemma_power_sum_push};
use crate::board::BoardModel;
use crate::player::{PlayerModel, lemma_draw_counts};
use crate::game::{
    Action, GameModel, LAST_ROUND, WINS_NEEDED, first_index, place, round_bonus, lemma_first_index,
    lemma_place_size,
};

verus! {

broadcast use vstd::multiset::group_multiset_axioms;

proof fn lemma_id_bag_push(s: Seq<Card>, c: Card)
    ensures
        id_bag(s.push(c)) =~= id_bag(s).insert(c.id),
{
    assert(ids_of(s.push(c)) =~= ids_of(s).push(c.id));
    to_multiset_build(ids_of(s), c.id);
}

proof fn lemma_id_bag_remove(s: Seq<Card>, i: int)
    requires
        0 <= i < s.len(),
    ensures
        id_bag(s.remove(i)).insert(s[i].id) =~= id_bag(s),
{
    assert(ids_of(s.remove(i)) =~= ids_of(s).remove(i));
    to_multiset_remove(ids_of(s), i);
    ids_of(s).to_multiset_ensures();
    assert(ids_of(s)[i] == s[i].id);
    assert(ids_of(s).contains(s[i].id));
}

proof fn lemma_empty_ids()
    ensures
        id_bag(Seq::<Card>::empty()) =~= Multiset::empty(),
        BoardModel::empty().ids() =~= Multiset::empty(),
{
    assert(ids_of(Seq::<Card>::empty()) =~= Seq::empty());
    Seq::<CardId>::empty().to_multiset_ensures();
    assert(Seq::<CardId>::empty().to_multiset() =~= Multiset::empty());
}

proof fn lemma_board_push_ids(b: BoardModel, c: Card)
    ensures
        b.push(c).ids() =~= b.ids().insert(c.id),
        b.push(c).total() == b.total() + c.power,
{
    lemma_id_bag_push(b.melee, c);
    lemma_id_bag_push(b.ranged, c);
    lemma_id_bag_push(b.siege, c);
    lemma_power_sum_push(b.melee, c);
    lemma_power_sum_push(b.ranged, c);
    lemma_power_sum_push(b.siege, c);
}

/// Drawing moves cards between deck and hand only.
proof fn lemma_draw_ids(p: PlayerModel, n: nat)
    ensures
        p.draw(n).ids() =~= p.ids(),
        id_bag(p.draw(n).deck).add(id_bag(p.draw(n).hand)) =~= id_bag(p.deck).add(id_bag(p.hand)),
    decreases n,
{
    if n > 0 && p.deck.len() > 0 {
        let q = PlayerModel { deck: p.deck.drop_last(), hand: p.hand.push(p.deck.last()), ..p };
        lemma_draw_ids(q, (n - 1) as nat);
        assert(p.deck =~= p.deck.drop_last().push(p.deck.last()));
        lemma_id_bag_push(p.deck.drop_last(), p.deck.last());
        lemma_id_bag_push(p.hand, p.deck.last());
        lemma_draw_counts(q, (n - 1) as nat);
    }
}

proof fn lemma_place_ids(me: PlayerModel, other: PlayerModel, i: int)
    requires
        0 <= i < me.hand.len(),
    ensures
        place(me, other, i).0.ids().add(place(me, other, i).1.ids()) =~= me.ids().add(other.ids()),
{
    let c = me.hand[i];
    let me1 = PlayerModel { hand: me.hand.remove(i), ..me };
    lemma_id_bag_remove(me.hand, i);
    lemma_draw_ids(me1, 2);
    lemma_board_push_ids(me.board, c);
    lemma_board_push_ids(other.board, c);
}

proof fn lemma_next_round_ids(p: PlayerModel, won: bool, round: u8)
    ensures
        GameModel::next_round_player(p, won, round).ids().add(p.board.ids()) =~= p.ids(),
{
    let p1 = GameModel::score(p, won);
    lemma_draw_ids(p1, round_bonus(round));
    lemma_draw_counts(p1, round_bonus(round));
    lemma_empty_ids();
}

/// No card is created or lost: after any action, the cards in the match
/// together with the cards discarded from the boards at a round's end are
/// exactly the cards that were in the match before.
pub proof fn law_cards_conserved(g: GameModel, a: Action)
    requires
        g.wf(),
    ensures
        g.step(a).ids().add(g.discarded(a)) =~= g.ids(),
{
    if g.takes_effect(a) {
        let me = g.current_player;
        let m = g.moved(a);
        match a {
            Action::PlayCard(id) => {
                let i = first_index(g.player(me).hand, id).unwrap();
                lemma_first_index(g.player(me).hand, id);
                lemma_place_ids(g.player(me), g.player(me.other()), i);
                let (x, y) = place(g.player(me), g.player(me.other()), i);
                assert(x.ids().add(y.ids()) =~= g.player(me).ids().add(g.player(me.other()).ids()));
                if me == PlayerId::One {
                    assert(m.ids() =~= g.ids());
                } else {
                    assert(m.player1 == y && m.player2 == x);
                    assert(forall|k: CardId| #[trigger] m.ids().count(k) == y.ids().count(k) + x.ids().count(k));
                    assert(forall|k: CardId| #[trigger] g.ids().count(k) == g.player1.ids().count(k) + g.player2.ids().count(k));
                    assert forall|k: CardId| #[trigger] x.ids().count(k) + y.ids().count(k)
                        == g.player2.ids().count(k) + g.player1.ids().count(k) by {
                        assert(x.ids().add(y.ids()).count(k) == g.player2.ids().add(g.player1.ids()).count(k));
                    }
                    assert(m.ids() =~= g.ids());
                }
            },
            Action::Pass => {
                assert(m.player1.ids() == g.player1.ids());
                assert(m.player2.ids() == g.player2.ids());
            },
        }
        if m.both_done() {
            lemma_next_round_ids(m.player1, m.player1.board.total() > m.player2.board.total(), m.round);
            lemma_next_round_ids(m.player2, m.player2.board.total() > m.player1.board.total(), m.round);
        }
    }
}

/// At the start, each player holds exactly the cards of their deck, and the
/// match exactly the cards of the two decks.
pub proof fn law_start_cards(deck1: Seq<Card>, deck2: Seq<Card>)
    ensures
        GameModel::start(deck1, deck2).player1.ids() =~= id_bag(deck1),
        GameModel::start(deck1, deck2).player2.ids() =~= id_bag(deck2),
        GameModel::start(deck1, deck2).ids() =~= id_bag(deck1).add(id_bag(deck2)),
{
    lemma_draw_ids(PlayerModel::fresh(deck1), 7);
    lemma_draw_ids(PlayerModel::fresh(deck2), 7);
    lemma_empty_ids();
}

/// The moves offered end with exactly one pass while the current player has
/// not passed and the match is on, every other move plays a card of that
/// player's hand, and nothing is offered otherwise.
pub proof fn law_legal_actions(g: GameModel)
    ensures
        ({
            let acts = g.legal_actions();
            let hand = g.player(g.current_player).hand;
            if g.finished || g.player(g.current_player).passed {
                acts.len() == 0
            } else {
                &&& acts.len() == hand.len() + 1
                &&& acts.last() == Action::Pass
                &&& forall|i: int| 0 <= i < acts.len() - 1 ==> acts[i] != Action::Pass
                &&& forall|i: int|
                    0 <= i < acts.len() - 1 ==> acts[i] == Action::PlayCard(hand[i].id)
            }
        }),
{
}

/// Every card in the hand after drawing was in the hand or the deck before.
proof fn lemma_draw_from(p: PlayerModel, n: nat)
    ensures
        forall|k: int|
            0 <= k < p.draw(n).hand.len() ==> p.hand.contains(#[trigger] p.draw(n).hand[k])
                || p.deck.contains(p.draw(n).hand[k]),
    decreases n,
{
    if n > 0 && p.deck.len() > 0 {
        let q = PlayerModel { deck: p.deck.drop_last(), hand: p.hand.push(p.deck.last()), ..p };
        lemma_draw_from(q, (n - 1) as nat);
        assert forall|x: Card| q.hand.contains(x) || q.deck.contains(x) implies p.hand.contains(x)
            || p.deck.contains(x) by {
            if q.hand.contains(x) {
                let j = choose|j: int| 0 <= j < q.hand.len() && q.hand[j] == x;
                if j < p.hand.len() {
                    assert(p.hand[j] == x);
                } else {
                    assert(p.deck[p.deck.len() - 1] == x);
                }
            } else {
                let j = choose|j: int| 0 <= j < q.deck.len() && q.deck[j] == x;
                assert(p.deck[j] == x);
            }
        }
        assert forall|k: int| 0 <= k < p.draw(n).hand.len() implies p.hand.contains(
            #[trigger] p.draw(n).hand[k],
        ) || p.deck.contains(p.draw(n).hand[k]) by {
            assert(q.draw((n - 1) as nat).hand[k] == p.draw(n).hand[k]);
        }
    } else {
        assert forall|k: int| 0 <= k < p.draw(n).hand.len() implies p.hand.contains(
            #[trigger] p.draw(n).hand[k],
        ) || p.deck.contains(p.draw(n).hand[k]) by {
            assert(p.hand[k] == p.draw(n).hand[k]);
        }
    }
}

/// Playing a spy puts it on the opponent's board, in its own row, raising
/// that board's power by the card's power; the player's own board is left
/// alone; the player's hand loses the card and then gains up to two cards,
/// as many as the deck still holds; where no identifier repeats across the
/// player's hand and deck, the card is no longer in that hand. When the
/// round goes on, both players are as the play left them.
pub proof fn law_spy_play(g: GameModel, id: CardId)
    requires
        g.wf(),
        !g.finished,
        first_index(g.player(g.current_player).hand, id) is Some,
        g.player(g.current_player).hand[first_index(g.player(g.current_player).hand, id).unwrap()].kind
            == CardKind::Spy,
    ensures
        ({
            let me = g.current_player;
            let hand = g.player(me).hand;
            let i = first_index(hand, id).unwrap();
            let c = hand[i];
            let h = g.play_card(id);
            let deck = g.player(me).deck;
            let drawn = if deck.len() < 2 { deck.len() } else { 2 };
            &&& h.player(me.other()).board == g.player(me.other()).board.push(c)
            &&& h.player(me.other()).board.total() == g.player(me.other()).board.total() + c.power
            &&& h.player(me).board == g.player(me).board
            &&& h.player(me).hand.len() == hand.len() - 1 + drawn
            &&& h.player(me).hand.take(hand.len() - 1) == hand.remove(i)
            &&& ids_of(hand + deck).no_duplicates() ==> forall|k: int|
                0 <= k < h.player(me).hand.len() ==> #[trigger] h.player(me).hand[k].id != c.id
            &&& !h.both_done() ==> g.step(Action::PlayCard(id)).player1 == h.player1
                && g.step(Action::PlayCard(id)).player2 == h.player2
        }),
{
    let me = g.current_player;
    let hand = g.player(me).hand;
    let deck = g.player(me).deck;
    lemma_first_index(hand, id);
    let i = first_index(hand, id).unwrap();
    let c = hand[i];
    let me1 = PlayerModel { hand: hand.remove(i), ..g.player(me) };
    lemma_draw_counts(me1, 2);
    lemma_draw_from(me1, 2);
    lemma_board_push_ids(g.player(me.other()).board, c);
    let h = g.play_card(id);
    assert(h.player(me) == me1.draw(2));
    if ids_of(hand + deck).no_duplicates() {
        assert forall|k: int| 0 <= k < h.player(me).hand.len() implies #[trigger] h.player(me).hand[k].id
            != c.id by {
            let x = h.player(me).hand[k];
            assert(ids_of(hand + deck)[i] == c.id);
            if me1.hand.contains(x) {
                let j = choose|j: int| 0 <= j < me1.hand.len() && me1.hand[j] == x;
                let jj = if j < i { j } else { j + 1 };
                assert(hand[jj] == x);
                assert(ids_of(hand + deck)[jj] == x.id);
            } else {
                let j = choose|j: int| 0 <= j < deck.len() && deck[j] == x;
                assert(ids_of(hand + deck)[hand.len() + j] == x.id);
            }
        }
    }
}

/// A round with level boards gives no one a round win; otherwise the side
/// with the stronger board, and only it, gains exactly one.
pub proof fn law_round_scoring(g: GameModel)
    requires
        g.wf(),
        !g.finished,
    ensures
        ({
            let t1 = g.player1.board.total();
            let t2 = g.player2.board.total();
            let h = g.end_round();
            &&& t1 == t2 ==> h.player1.rounds_won == g.player1.rounds_won
                && h.player2.rounds_won == g.player2.rounds_won
            &&& t1 > t2 ==> h.player1.rounds_won == g.player1.rounds_won + 1
                && h.player2.rounds_won == g.player2.rounds_won
            &&& t2 > t1 ==> h.player2.rounds_won == g.player2.rounds_won + 1
                && h.player1.rounds_won == g.player1.rounds_won
        }),
{
    let t1 = g.player1.board.total();
    let t2 = g.player2.board.total();
    lemma_draw_counts(GameModel::score(g.player1, t1 > t2), round_bonus(g.round));
    lemma_draw_counts(GameModel::score(g.player2, t2 > t1), round_bonus(g.round));
}

/// Ending a move, from a well formed state with the match on, keeps it
/// well formed, keeps or advances the round by one, and finishes the match
/// once a side has two round wins or the third round has ended.
proof fn lemma_after_move(m: GameModel)
    requires
        m.wf(),
        !m.finished,
    ensures
        m.after_move().wf(),
        m.after_move().round == m.round || m.after_move().round == m.round + 1,
        m.after_move().player1.rounds_won == WINS_NEEDED || m.after_move().player2.rounds_won
            == WINS_NEEDED ==> m.after_move().finished,
        m.both_done() && m.round == LAST_ROUND ==> m.after_move().finished,
{
    if m.both_done() {
        let t1 = m.player1.board.total();
        let t2 = m.player2.board.total();
        lemma_draw_counts(GameModel::score(m.player1, t1 > t2), round_bonus(m.round));
        lemma_draw_counts(GameModel::score(m.player2, t2 > t1), round_bonus(m.round));
        lemma_empty_ids();
    }
}

/// The state once an effective action is made keeps the invariant.
proof fn lemma_moved_wf(g: GameModel, a: Action)
    requires
        g.wf(),
        g.takes_effect(a),
    ensures
        g.moved(a).wf(),
        !g.moved(a).finished,
        g.moved(a).round == g.round,
        g.moved(a).current_player == g.current_player,
{
    let me = g.current_player;
    match a {
        Action::PlayCard(id) => {
            lemma_first_index(g.player(me).hand, id);
            lemma_place_size(g.player(me), g.player(me.other()), first_index(g.player(me).hand, id).unwrap());
        },
        Action::Pass => {},
    }
}

/// Every action keeps the state well formed (round at most three, at most
/// two round wins each); a finished match never changes again; the round
/// only moves forward, one at a time; and the match is finished as soon as
/// a side has two round wins or the third round has ended.
pub proof fn law_match_ends(g: GameModel, a: Action)
    requires
        g.wf(),
    ensures
        g.step(a).wf(),
        g.finished ==> g.step(a) == g,
        g.step(a).round == g.round || g.step(a).round == g.round + 1,
        g.finished ==> g.step(a).finished,
        g.step(a).player1.rounds_won == WINS_NEEDED || g.step(a).player2.rounds_won == WINS_NEEDED
            ==> g.step(a).finished,
        g.ends_round(a) && g.round == LAST_ROUND ==> g.step(a).finished,
{
    if g.takes_effect(a) {
        lemma_moved_wf(g, a);
        lemma_after_move(g.moved(a));
    }
}

/// When an action does not end the round, the turn goes to the other side
/// if that side has not passed and still holds cards, and otherwise stays
/// with the side that moved; the round and its number go on.
pub proof fn law_turn(g: GameModel, a: Action)
    requires
        g.wf(),
        g.takes_effect(a),
        !g.ends_round(a),
    ensures
        ({
            let me = g.current_player;
            let next = g.step(a);
            &&& next.current_player == if g.moved(a).player(me.other()).done() {
                me
            } else {
                me.other()
            }
            &&& next.round == g.round
            &&& !next.finished
        }),
{
    lemma_moved_wf(g, a);
}

} // verus!
