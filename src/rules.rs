//! General properties of a turn, proved over the model of a match.
use vstd::prelude::*;

use crate::card::{Card, CardColor, ColoredCard, PlayedCard};
use crate::turn::{PlayAction, TurnAction, TurnOutcome};
use crate::player::is_first_index;
use crate::uno::{lemma_called_out_frame, lemma_penalized_frame, UnoModel};

verus! {

/// Resolving an action keeps the active players, in order, and the winners.
proof fn lemma_resolved_frame(s: UnoModel, a: TurnAction)
    requires
        s.wf(),
        s.count() > 0,
    ensures
        s.resolved(a).0.count() == s.count(),
        forall|i: int|
            0 <= i < s.count() ==> #[trigger] s.resolved(a).0.players[i].id == s.players[i].id,
        s.resolved(a).0.winners == s.winners,
        s.resolved(a).0.wf(),
{
    let r = s.resolved(a).0;
    if a is Callout && s.deck.len() >= s.draws_needed(a) {
        lemma_called_out_frame(s);
    }
    vstd::arithmetic::div_mod::lemma_mod_bound(s.index + 1, s.count());
    vstd::arithmetic::div_mod::lemma_mod_bound(s.index + 2, s.count());
    assert forall|i: int, j: int| 0 <= i < j < r.count() implies #[trigger] r.players[i].id
        < #[trigger] r.players[j].id by {
        assert(r.players[i].id == s.players[i].id);
        assert(r.players[j].id == s.players[j].id);
    }
}

/// Position in `players` of the `n`-th player from the current one lies among
/// the active players.
proof fn lemma_nth_pos_in_range(s: UnoModel, n: int)
    requires
        s.count() > 0,
    ensures
        0 <= s.nth_pos(n) < s.count(),
{
    vstd::arithmetic::div_mod::lemma_mod_bound(s.index + n, s.count());
}

/// A card in a hand has a first position there.
proof fn lemma_first_index_exists(hand: Seq<Card>, card: Card)
    requires
        hand.contains(card),
    ensures
        exists|i: int| is_first_index(hand, card, i),
    decreases hand.len(),
{
    let init = hand.drop_last();
    if init.contains(card) {
        lemma_first_index_exists(init, card);
        let i = choose|i: int| is_first_index(init, card, i);
        assert forall|j: int| 0 <= j < i implies hand[j] != card by {
            assert(hand[j] == init[j]);
        }
        assert(hand[i] == init[i]);
        assert(is_first_index(hand, card, i));
    } else {
        assert forall|j: int| 0 <= j < hand.len() - 1 implies hand[j] != card by {
            assert(hand[j] == init[j]);
        }
        let k = choose|k: int| 0 <= k < hand.len() && hand[k] == card;
        assert(is_first_index(hand, card, hand.len() - 1));
    }
}

/// Playing a coloured card that is in the current player's hand takes its
/// first copy out of that hand and changes no other hand, id or winner, and
/// the direction only for a reverse card.
proof fn lemma_played_colored_frame(s: UnoModel, card: Card)
    requires
        s.wf(),
        s.count() > 0,
        card is Colored,
        s.players[s.current_pos()].hand.contains(card),
        s.deck.len() >= s.draws_needed(TurnAction::Play(PlayAction::ColoredCard(card))),
        card matches Card::Colored(_, ColoredCard::Draw) ==> s.count() >= 2,
    ensures
        ({
            let t = s.played_colored(card).0;
            let cp = s.current_pos();
            &&& t.count() == s.count()
            &&& t.ids() == s.ids()
            &&& t.players[cp].hand.len() == s.players[cp].hand.len() - 1
            &&& t.last_played == (match card {
                Card::Colored(color, rank) => PlayedCard::Colored(color, rank),
                _ => s.last_played,
            })
        }),
{
    lemma_nth_pos_in_range(s, 0);
    lemma_nth_pos_in_range(s, 1);
    lemma_first_index_exists(s.players[s.current_pos()].hand, card);
    let i = choose|i: int| is_first_index(s.players[s.current_pos()].hand, card, i);
    assert(is_first_index(s.players[s.current_pos()].hand, card, i));
    let t = s.played_colored(card).0;
    assert(t.ids() =~= s.ids());
    if s.count() >= 2 {
        lemma_next_is_other(s);
    }
}

/// With two or more players, the next player is not the current one.
proof fn lemma_next_is_other(s: UnoModel)
    requires
        s.wf(),
        s.count() >= 2,
    ensures
        s.next_pos() != s.current_pos(),
{
    let c = s.count();
    vstd::arithmetic::div_mod::lemma_small_mod(s.index as nat, c as nat);
    if s.index + 1 < c {
        vstd::arithmetic::div_mod::lemma_small_mod((s.index + 1) as nat, c as nat);
    } else {
        vstd::arithmetic::div_mod::lemma_mod_self_0(c);
    }
}

/// After the turn moved `n` places on, the current player is the one who was
/// `n`-th from the old current player.
proof fn lemma_advanced_current(s: UnoModel, n: nat)
    requires
        s.wf(),
        s.count() > 0,
    ensures
        s.advanced(n).current_pos() == s.nth_pos(n as int),
{
    vstd::arithmetic::div_mod::lemma_mod_twice(s.index + n, s.count());
}

/// Flipping the direction keeps the current player, and the player who was
/// last in the old order comes next.
proof fn lemma_reversed_turns(s: UnoModel)
    requires
        s.wf(),
        s.count() > 0,
    ensures
        s.reversed_direction().current_pos() == s.current_pos(),
        s.reversed_direction().next_pos() == s.nth_pos(s.count() - 1),
{
    let c = s.count();
    let i = s.index;
    vstd::arithmetic::div_mod::lemma_small_mod(i as nat, c as nat);
    vstd::arithmetic::div_mod::lemma_small_mod((c - 1 - i) as nat, c as nat);
    if i == 0 {
        vstd::arithmetic::div_mod::lemma_mod_self_0(c);
        vstd::arithmetic::div_mod::lemma_small_mod((c - 1) as nat, c as nat);
    } else {
        vstd::arithmetic::div_mod::lemma_small_mod((c - i) as nat, c as nat);
        vstd::arithmetic::div_mod::lemma_mod_add_multiples_vanish(i - 1, c);
        vstd::arithmetic::div_mod::lemma_small_mod((i - 1) as nat, c as nat);
    }
}

/// Playing a reverse card keeps the turn with the player who played it, and
/// makes the player who was last in the old direction come next.
pub proof fn lemma_reverse_keeps_current(s: UnoModel, color: CardColor)
    requires
        s.wf(),
        s.count() > 0,
        s.players[s.current_pos()].hand.contains(Card::Colored(color, ColoredCard::Reverse)),
        s.players[s.current_pos()].hand.len() > 1,
    ensures
        ({
            let (t, outcome, won) = s.step(
                TurnAction::Play(PlayAction::ColoredCard(Card::Colored(color, ColoredCard::Reverse))),
            );
            &&& outcome == TurnOutcome::Reverse
            &&& !won
            &&& t.reversed == !s.reversed
            &&& t.current_id() == s.current_id()
            &&& t.next_id() == s.nth_id(s.count() - 1)
        }),
{
    let card = Card::Colored(color, ColoredCard::Reverse);
    lemma_played_colored_frame(s, card);
    let cp = s.current_pos();
    let i = choose|i: int| is_first_index(s.players[cp].hand, card, i);
    let s2 = UnoModel {
        players: s.players.update(cp, s.players[cp].discard(i)),
        last_played: PlayedCard::Colored(color, ColoredCard::Reverse),
        ..s
    };
    lemma_reversed_turns(s2);
    lemma_nth_pos_in_range(s, s.count() - 1);
    lemma_nth_pos_in_range(s, 0);
}

/// Asking to play a card that is not in the current player's hand is refused
/// and changes nothing, whatever that hand holds.
pub proof fn lemma_absent_card_changes_nothing(s: UnoModel, card: Card)
    requires
        s.wf(),
        s.count() > 0,
        !s.players[s.current_pos()].hand.contains(card),
    ensures
        ({
            let (t, outcome, won) = s.step(TurnAction::Play(PlayAction::ColoredCard(card)));
            &&& outcome == TurnOutcome::CardNotInHand
            &&& t == s
            &&& !won
        }),
{
}

/// Playing a skip card moves the turn two steps on in the current direction.
pub proof fn lemma_skip_moves_two(s: UnoModel, color: CardColor)
    requires
        s.wf(),
        s.count() > 0,
        s.players[s.current_pos()].hand.contains(Card::Colored(color, ColoredCard::Skip)),
        s.players[s.current_pos()].hand.len() > 1,
    ensures
        ({
            let (t, outcome, won) = s.step(
                TurnAction::Play(PlayAction::ColoredCard(Card::Colored(color, ColoredCard::Skip))),
            );
            &&& outcome == TurnOutcome::Skip
            &&& !won
            &&& t.ids() == s.ids()
            &&& t.index == s.advanced(2).index
            &&& t.current_id() == s.nth_id(2)
            &&& t.last_played == PlayedCard::Colored(color, ColoredCard::Skip)
        }),
{
    let card = Card::Colored(color, ColoredCard::Skip);
    lemma_played_colored_frame(s, card);
    let cp = s.current_pos();
    let i = choose|i: int| is_first_index(s.players[cp].hand, card, i);
    let s2 = UnoModel {
        players: s.players.update(cp, s.players[cp].discard(i)),
        last_played: PlayedCard::Colored(color, ColoredCard::Skip),
        ..s
    };
    lemma_advanced_current(s2, 2);
    lemma_nth_pos_in_range(s, 0);
}

/// Playing a draw-two card gives the next player two cards from the pile and
/// moves the turn one step on.
pub proof fn lemma_draw_two_hits_next(s: UnoModel, color: CardColor)
    requires
        s.wf(),
        s.count() >= 2,
        s.players[s.current_pos()].hand.contains(Card::Colored(color, ColoredCard::Draw)),
        s.players[s.current_pos()].hand.len() > 1,
        s.deck.len() >= 2,
    ensures
        ({
            let (t, outcome, won) = s.step(
                TurnAction::Play(PlayAction::ColoredCard(Card::Colored(color, ColoredCard::Draw))),
            );
            &&& outcome == TurnOutcome::Draw
            &&& !won
            &&& t.ids() == s.ids()
            &&& t.players[s.next_pos()].hand == s.players[s.next_pos()].hand + s.deck.take(2)
            &&& t.deck == s.deck.skip(2)
            &&& t.index == s.advanced(1).index
            &&& t.current_id() == s.next_id()
        }),
{
    let card = Card::Colored(color, ColoredCard::Draw);
    lemma_played_colored_frame(s, card);
    lemma_next_is_other(s);
    let cp = s.current_pos();
    let i = choose|i: int| is_first_index(s.players[cp].hand, card, i);
    let s2 = UnoModel {
        players: s.players.update(cp, s.players[cp].discard(i)),
        last_played: PlayedCard::Colored(color, ColoredCard::Draw),
        ..s
    };
    let s3 = s2.draw_to(s2.next_pos(), 2);
    lemma_nth_pos_in_range(s, 0);
    lemma_nth_pos_in_range(s, 1);
    lemma_advanced_current(s3, 1);
}

/// Playing a wild draw card sets its colour face up and gives the next player
/// four cards from the pile.
pub proof fn lemma_wild_draw_hits_next(s: UnoModel, color: CardColor)
    requires
        s.wf(),
        s.count() >= 2,
        s.players[s.current_pos()].hand.len() > 0,
        s.deck.len() >= 4,
    ensures
        ({
            let (t, outcome, won) = s.step(TurnAction::Play(PlayAction::WildDraw(color)));
            &&& outcome == TurnOutcome::WildDraw
            &&& !won
            &&& t.ids() == s.ids()
            &&& t.players[s.next_pos()].hand == s.players[s.next_pos()].hand + s.deck.take(4)
            &&& t.deck == s.deck.skip(4)
            &&& t.last_played == PlayedCard::WildDraw(color)
            &&& t.index == s.advanced(1).index
            &&& t.current_id() == s.next_id()
        }),
{
    lemma_next_is_other(s);
    lemma_nth_pos_in_range(s, 0);
    lemma_nth_pos_in_range(s, 1);
    let t = s.step(TurnAction::Play(PlayAction::WildDraw(color))).0;
    assert(t.ids() =~= s.ids());
    let s2 = UnoModel { last_played: PlayedCard::WildDraw(color), ..s }.draw_to(s.next_pos(), 4);
    lemma_advanced_current(s2, 1);
}

/// Playing a number card passes the turn to the next player.
pub proof fn lemma_number_passes_turn(s: UnoModel, color: CardColor, number: u8)
    requires
        s.wf(),
        s.count() > 0,
        s.players[s.current_pos()].hand.contains(Card::Colored(color, ColoredCard::Number(number))),
        s.players[s.current_pos()].hand.len() > 1,
    ensures
        ({
            let (t, outcome, won) = s.step(
                TurnAction::Play(
                    PlayAction::ColoredCard(Card::Colored(color, ColoredCard::Number(number))),
                ),
            );
            &&& outcome == TurnOutcome::Neutral
            &&& !won
            &&& t.ids() == s.ids()
            &&& t.deck == s.deck
            &&& t.reversed == s.reversed
            &&& t.current_id() == s.next_id()
            &&& t.last_played == PlayedCard::Colored(color, ColoredCard::Number(number))
        }),
{
    let card = Card::Colored(color, ColoredCard::Number(number));
    lemma_played_colored_frame(s, card);
    let cp = s.current_pos();
    let i = choose|i: int| is_first_index(s.players[cp].hand, card, i);
    let s2 = UnoModel {
        players: s.players.update(cp, s.players[cp].discard(i)),
        last_played: PlayedCard::Colored(color, ColoredCard::Number(number)),
        ..s
    };
    lemma_advanced_current(s2, 1);
    lemma_nth_pos_in_range(s, 0);
}

/// Calling Uno with a single card in hand holds and costs nothing; with any
/// other number of cards it fails and the caller takes two cards.
pub proof fn lemma_uno_call(s: UnoModel)
    requires
        s.wf(),
        s.count() > 0,
        s.deck.len() >= s.draws_needed(TurnAction::Uno),
    ensures
        ({
            let (t, outcome, won) = s.step(TurnAction::Uno);
            let cp = s.current_pos();
            &&& !won
            &&& t.ids() == s.ids()
            &&& s.players[cp].hand.len() == 1 ==> outcome == TurnOutcome::UnoSuccessful
                && t.players[cp].hand == s.players[cp].hand && t.players[cp].uno_performed
                && t.deck == s.deck
            &&& s.players[cp].hand.len() != 1 ==> outcome == TurnOutcome::UnoFailed
                && t.players[cp].hand == s.players[cp].hand + s.deck.take(2)
                && t.deck == s.deck.skip(2)
        }),
{
    lemma_nth_pos_in_range(s, 0);
    let t = s.step(TurnAction::Uno).0;
    assert(t.ids() =~= s.ids());
}

/// The offenders below `k` are exactly the positions below `k` of opponents
/// holding a single card, in ascending order.
proof fn lemma_offenders_before(s: UnoModel, k: int)
    requires
        0 <= k <= s.count(),
    ensures
        forall|p: int| #[trigger]
            s.offenders_before(k).contains(p) <==> 0 <= p < k && s.is_offender(p),
        forall|i: int, j: int|
            0 <= i < j < s.offenders_before(k).len() ==> #[trigger] s.offenders_before(k)[i]
                < #[trigger] s.offenders_before(k)[j],
        forall|i: int|
            0 <= i < s.offenders_before(k).len() ==> 0 <= #[trigger] s.offenders_before(k)[i] < k,
    decreases k,
{
    if k > 0 {
        lemma_offenders_before(s, k - 1);
        let prev = s.offenders_before(k - 1);
        if s.is_offender(k - 1) {
            assert forall|p: int| #[trigger]
                s.offenders_before(k).contains(p) <==> 0 <= p < k && s.is_offender(p) by {
                if p == k - 1 {
                    assert(s.offenders_before(k)[prev.len() as int] == p);
                }
                if s.offenders_before(k).contains(p) && p != k - 1 {
                    let m = choose|m: int|
                        0 <= m < s.offenders_before(k).len() && s.offenders_before(k)[m] == p;
                    assert(prev[m] == p);
                }
                if prev.contains(p) {
                    let m = choose|m: int| 0 <= m < prev.len() && prev[m] == p;
                    assert(s.offenders_before(k)[m] == p);
                }
            }
        }
    }
}

/// Penalty draws give two cards to each listed player and leave every other
/// hand alone.
proof fn lemma_penalized_hands(s: UnoModel, ps: Seq<int>)
    requires
        ps.no_duplicates(),
        s.deck.len() >= 2 * ps.len(),
        forall|k: int| 0 <= k < ps.len() ==> 0 <= #[trigger] ps[k] < s.count(),
    ensures
        forall|q: int|
            0 <= q < s.count() ==> (#[trigger] s.penalized(ps).players[q]).hand.len()
                == s.players[q].hand.len() + if ps.contains(q) {
                2int
            } else {
                0int
            },
        forall|q: int|
            0 <= q < s.count() && !ps.contains(q) ==> #[trigger] s.penalized(ps).players[q]
                == s.players[q],
    decreases ps.len(),
{
    if ps.len() > 0 {
        let init = ps.drop_last();
        assert forall|k: int| 0 <= k < init.len() implies 0 <= #[trigger] init[k] < s.count() by {
            assert(init[k] == ps[k]);
        }
        lemma_penalized_hands(s, init);
        lemma_penalized_frame(s, init);
        assert(!init.contains(ps.last())) by {
            if init.contains(ps.last()) {
                let m = choose|m: int| 0 <= m < init.len() && init[m] == ps.last();
                assert(ps[m] == ps[ps.len() - 1]);
            }
        }
        assert forall|q: int| 0 <= q < s.count() implies (ps.contains(q) <==> init.contains(q) || q
            == ps.last()) by {
            if ps.contains(q) && q != ps.last() {
                let m = choose|m: int| 0 <= m < ps.len() && ps[m] == q;
                assert(init[m] == q);
            }
            if init.contains(q) {
                let m = choose|m: int| 0 <= m < init.len() && init[m] == q;
                assert(ps[m] == q);
            }
        }
    }
}

/// The offenders of a callout are exactly the opponents of the current
/// player who hold a single card, listed in ascending order of id. When
/// there is none, the callout costs the caller two cards and changes no
/// other hand; otherwise each offender, and nobody else, takes two cards and
/// the caller is left alone. The turn does not move.
pub proof fn lemma_callout_effect(s: UnoModel)
    requires
        s.wf(),
        s.count() > 0,
        s.deck.len() >= s.draws_needed(TurnAction::Callout),
    ensures
        forall|id: u64| #[trigger]
            s.offender_ids().contains(id) <==> exists|p: int|
                0 <= p < s.count() && p != s.current_pos() && s.players[p].hand.len() == 1
                    && s.players[p].id == id,
        forall|i: int, j: int|
            0 <= i < j < s.offender_ids().len() ==> #[trigger] s.offender_ids()[i]
                < #[trigger] s.offender_ids()[j],
        ({
            let t = s.called_out();
            let cp = s.current_pos();
            &&& t.ids() == s.ids()
            &&& t.index == s.index
            &&& t.reversed == s.reversed
            &&& t.deck == s.deck.skip(s.draws_needed(TurnAction::Callout) as int)
            &&& s.offender_ids().len() == 0 ==> {
                &&& t.players[cp].hand == s.players[cp].hand + s.deck.take(2)
                &&& forall|q: int| 0 <= q < s.count() && q != cp ==> #[trigger] t.players[q] == s.players[q]
            }
            &&& s.offender_ids().len() > 0 ==> {
                &&& t.players[cp] == s.players[cp]
                &&& forall|q: int|
                    0 <= q < s.count() ==> (#[trigger] t.players[q]).hand.len()
                        == s.players[q].hand.len() + if s.is_offender(q) {
                        2int
                    } else {
                        0int
                    }
            }
        }),
{
    let offs = s.offenders();
    lemma_offenders_before(s, s.count());
    lemma_nth_pos_in_range(s, 0);
    lemma_called_out_frame(s);
    let ids = s.offender_ids();
    assert forall|id: u64| #[trigger] ids.contains(id) <==> exists|p: int|
        0 <= p < s.count() && p != s.current_pos() && s.players[p].hand.len() == 1
            && s.players[p].id == id by {
        if ids.contains(id) {
            let m = choose|m: int| 0 <= m < ids.len() && ids[m] == id;
            assert(offs.contains(offs[m]));
        }
        if exists|p: int|
            0 <= p < s.count() && p != s.current_pos() && s.players[p].hand.len() == 1
                && s.players[p].id == id {
            let p = choose|p: int|
                0 <= p < s.count() && p != s.current_pos() && s.players[p].hand.len() == 1
                    && s.players[p].id == id;
            assert(offs.contains(p));
            let m = choose|m: int| 0 <= m < offs.len() && offs[m] == p;
            assert(ids[m] == id);
        }
    }
    assert forall|i: int, j: int| 0 <= i < j < ids.len() implies #[trigger] ids[i] < #[trigger] ids[j] by {
        assert(offs[i] < offs[j]);
    }
    let t = s.called_out();
    if offs.len() > 0 {
        assert(offs.no_duplicates());
        assert forall|k: int| 0 <= k < offs.len() implies 0 <= #[trigger] offs[k] < s.count() by {
        }
        lemma_penalized_hands(s, offs);
        lemma_penalized_frame(s, offs);
        assert(!offs.contains(s.current_pos()));
    }
    assert(t.ids() =~= s.ids());
}

/// A callout as a turn: nobody named gives `CalloutFailed`, otherwise
/// `CalledOut` with the offenders' ids; a caller who holds cards does not
/// win by it.
pub proof fn lemma_callout(s: UnoModel)
    requires
        s.wf(),
        s.count() > 0,
        s.deck.len() >= s.draws_needed(TurnAction::Callout),
        s.players[s.current_pos()].hand.len() > 0,
    ensures
        ({
            let (t, outcome, won) = s.step(TurnAction::Callout);
            &&& !won
            &&& t == s.called_out()
            &&& s.offender_ids().len() == 0 ==> outcome == TurnOutcome::CalloutFailed
            &&& s.offender_ids().len() > 0 ==> outcome == TurnOutcome::CalledOut(s.offender_ids())
        }),
{
    lemma_callout_effect(s);
    lemma_nth_pos_in_range(s, 0);
}

/// A player leaves the active players only by emptying their hand on their
/// own turn. Their record is then appended to the winners, their id is gone
/// from the active ids, and no later turn query yields it. Otherwise the
/// active ids and the winners stay as they were.
pub proof fn lemma_winner_leaves_play(s: UnoModel, a: TurnAction)
    requires
        s.wf(),
        s.count() > 0,
    ensures
        ({
            let (t, outcome, won) = s.step(a);
            &&& t.wf()
            &&& won ==> {
                &&& t.ids() == s.ids().remove(s.current_pos())
                &&& t.winners.len() == s.winners.len() + 1
                &&& t.winners.drop_last() == s.winners
                &&& t.winners.last().id == s.current_id()
                &&& t.winners.last().hand.len() == 0
                &&& forall|n: int| t.count() > 0 ==> #[trigger] t.nth_id(n) != s.current_id()
            }
            &&& !won ==> t.ids() == s.ids() && t.winners == s.winners
        }),
{
    lemma_resolved_frame(s, a);
    lemma_nth_pos_in_range(s, 0);
    let r = s.resolved(a).0;
    let cp = s.current_pos();
    let (t, won) = r.settled(cp);
    if won {
        assert(t.ids() =~= s.ids().remove(cp)) by {
            assert(r.ids() =~= s.ids());
        }
        assert(t.winners.drop_last() =~= s.winners);
        assert forall|i: int, j: int| 0 <= i < j < t.count() implies #[trigger] t.players[i].id
            < #[trigger] t.players[j].id by {
            let i0 = if i < cp {
                i
            } else {
                i + 1
            };
            let j0 = if j < cp {
                j
            } else {
                j + 1
            };
            assert(t.players[i] == r.players[i0]);
            assert(t.players[j] == r.players[j0]);
        }
        assert forall|n: int| t.count() > 0 implies #[trigger] t.nth_id(n) != s.current_id() by {
            lemma_nth_pos_in_range(t, n);
            let p = t.nth_pos(n);
            let p0 = if p < cp {
                p
            } else {
                p + 1
            };
            assert(t.players[p] == r.players[p0]);
        }
        if t.count() > 0 {
            vstd::arithmetic::div_mod::lemma_mod_bound(r.index, t.count());
        }
    } else {
        assert(r.ids() =~= s.ids());
    }
}

} // verus!
