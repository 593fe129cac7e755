use std::collections::BTreeMap;

use rand::Rng;

use vstd::prelude::*;
use vstd::multiset::Multiset;
use vstd::std_specs::cmp::OrdSpec;

use crate::card::{Card, ColoredCard, PlayedCard};
use crate::deck::{is_first_colored, is_standard_deck, standard_count, Deck};
use crate::error::UnoError;
use crate::player::{is_first_index, Player, PlayerView};
pub use crate::turn::PlayTurnResult;
use crate::turn::{PlayAction, TurnAction, TurnActionResult, TurnOutcome};

verus! {

/// The cards in the hands of `players`, all together.
pub open spec fn hands_multiset(players: Seq<PlayerView>) -> Multiset<Card>
    decreases players.len(),
{
    if players.len() == 0 {
        Multiset::empty()
    } else {
        hands_multiset(players.drop_last()).add(players.last().hand.to_multiset())
    }
}

/// The card that was put down to make `p` the face-up card.
pub open spec fn card_of_played(p: PlayedCard) -> Card {
    match p {
        PlayedCard::Colored(color, rank) => Card::Colored(color, rank),
        PlayedCard::Wild(_) => Card::Wild,
        PlayedCard::WildDraw(_) => Card::WildDraw,
    }
}

/// A match as the contracts see it.
pub struct UnoModel {
    /// The draw pile, front first.
    pub deck: Seq<Card>,
    /// The active players, in ascending order of id.
    pub players: Seq<PlayerView>,
    /// The players who emptied their hands, in finishing order.
    pub winners: Seq<PlayerView>,
    /// The stored turn index into the direction-aware order.
    pub index: int,
    /// Whether turns go in descending order of id.
    pub reversed: bool,
    /// The face-up card.
    pub last_played: PlayedCard,
}

impl UnoModel {
    /// Number of active players.
    pub open spec fn count(self) -> int {
        self.players.len() as int
    }

    /// The active players' ids, ascending.
    pub open spec fn ids(self) -> Seq<u64> {
        self.players.map_values(|p: PlayerView| p.id)
    }

    /// The winners' ids, in finishing order.
    pub open spec fn winner_ids(self) -> Seq<u64> {
        self.winners.map_values(|p: PlayerView| p.id)
    }

    /// Ids strictly ascending, at most ten players, every id held by one
    /// player at most (active or winner), and the stored index inside the
    /// active players.
    pub open spec fn wf(self) -> bool {
        &&& forall|i: int, j: int|
            0 <= i < j < self.count() ==> #[trigger] self.players[i].id
                < #[trigger] self.players[j].id
        &&& forall|i: int, j: int|
            0 <= i < j < self.winners.len() ==> #[trigger] self.winners[i].id
                != #[trigger] self.winners[j].id
        &&& forall|i: int, j: int|
            0 <= i < self.winners.len() && 0 <= j < self.count() ==> #[trigger] self.winners[i].id
                != #[trigger] self.players[j].id
        &&& self.count() <= 10
        &&& 0 <= self.index
        &&& self.count() > 0 ==> self.index < self.count()
        &&& self.count() == 0 ==> self.index == 0
    }

    /// A match just dealt: every player holds seven cards and has not called
    /// Uno, nobody has won, the turn is on the lowest id going upwards, a
    /// coloured card is face up, and the pile holds what is left of the
    /// 108 cards.
    pub open spec fn is_fresh_deal(self) -> bool {
        &&& self.wf()
        &&& forall|i: int|
            0 <= i < self.count() ==> (#[trigger] self.players[i]).hand.len() == 7
                && !self.players[i].uno_performed
        &&& self.winners.len() == 0
        &&& self.index == 0
        &&& !self.reversed
        &&& self.last_played is Colored
        &&& self.deck.len() == 108 - 1 - 7 * self.count()
        &&& forall|c: Card|
            #[trigger] self.deck.to_multiset().add(hands_multiset(self.players)).insert(
                card_of_played(self.last_played),
            ).count(c) == standard_count(c)
    }

    /// A fresh deal whose players are those of `info`, by id and name.
    pub open spec fn is_new_match(self, info: Map<u64, String>) -> bool {
        &&& self.is_fresh_deal()
        &&& self.count() == info.len()
        &&& self.ids().to_set() == info.dom()
        &&& forall|i: int|
            0 <= i < self.count() ==> (#[trigger] self.players[i]).name == info[self.players[i].id]@
    }

    /// Position in `players` of the player at place `k` of the direction-aware
    /// order (ascending ids, or descending when reversed).
    pub open spec fn order_pos(self, k: int) -> int {
        if self.reversed {
            self.count() - 1 - k
        } else {
            k
        }
    }

    /// Position in `players` of the `n`-th player from the current one.
    pub open spec fn nth_pos(self, n: int) -> int {
        self.order_pos((self.index + n) % self.count())
    }

    /// Position in `players` of the player whose turn it is.
    pub open spec fn current_pos(self) -> int {
        self.nth_pos(0)
    }

    /// Position in `players` of the player after the current one.
    pub open spec fn next_pos(self) -> int {
        self.nth_pos(1)
    }

    /// Id of the `n`-th player from the current one.
    pub open spec fn nth_id(self, n: int) -> u64 {
        self.players[self.nth_pos(n)].id
    }

    /// Id of the player whose turn it is.
    pub open spec fn current_id(self) -> u64 {
        self.nth_id(0)
    }

    /// Id of the player after the current one.
    pub open spec fn next_id(self) -> u64 {
        self.nth_id(1)
    }

    /// The turn moved `n` places on along the direction-aware order,
    /// wrapping around the active players.
    pub open spec fn advanced(self, n: nat) -> UnoModel {
        UnoModel { index: (self.index + n) % self.count(), ..self }
    }

    /// The player at `pos` took the first `n` cards of the pile.
    pub open spec fn draw_to(self, pos: int, n: nat) -> UnoModel {
        UnoModel {
            deck: self.deck.skip(n as int),
            players: self.players.update(pos, self.players[pos].receive(self.deck.take(n as int))),
            ..self
        }
    }

    /// The player at `pos` is an opponent of the current player holding a
    /// single card.
    pub open spec fn is_offender(self, pos: int) -> bool {
        pos != self.current_pos() && self.players[pos].hand.len() == 1
    }

    /// Positions below `k` of the opponents holding a single card, ascending.
    pub open spec fn offenders_before(self, k: int) -> Seq<int>
        decreases k,
    {
        if k <= 0 {
            seq![]
        } else if self.is_offender(k - 1) {
            self.offenders_before(k - 1).push(k - 1)
        } else {
            self.offenders_before(k - 1)
        }
    }

    /// Positions of the opponents holding a single card, ascending.
    pub open spec fn offenders(self) -> Seq<int> {
        self.offenders_before(self.count())
    }

    /// Ids of the opponents holding a single card, ascending.
    pub open spec fn offender_ids(self) -> Seq<u64> {
        self.offenders().map_values(|pos: int| self.players[pos].id)
    }

    /// Each player of `positions`, in order, took two penalty cards.
    pub open spec fn penalized(self, positions: Seq<int>) -> UnoModel
        decreases positions.len(),
    {
        if positions.len() == 0 {
            self
        } else {
            self.penalized(positions.drop_last()).draw_to(positions.last(), 2)
        }
    }

    /// A callout: each opponent holding a single card takes two cards; when
    /// there is none, the caller takes two.
    pub open spec fn called_out(self) -> UnoModel {
        if self.offenders().len() == 0 {
            self.draw_to(self.current_pos(), 2)
        } else {
            self.penalized(self.offenders())
        }
    }

    /// An Uno call: it holds with a single card in hand; otherwise the caller
    /// takes two cards.
    pub open spec fn uno_called(self) -> UnoModel {
        let cp = self.current_pos();
        if self.players[cp].hand.len() == 1 {
            UnoModel {
                players: self.players.update(
                    cp,
                    PlayerView { uno_performed: true, ..self.players[cp] },
                ),
                ..self
            }
        } else {
            self.draw_to(cp, 2)
        }
    }

    /// How many cards `action` takes from the pile.
    pub open spec fn draws_needed(self, action: TurnAction) -> nat {
        match action {
            TurnAction::Play(PlayAction::ColoredCard(Card::Colored(_, ColoredCard::Draw))) => 2,
            TurnAction::Play(PlayAction::ColoredCard(_)) => 0,
            TurnAction::Play(PlayAction::Wild(_)) => 0,
            TurnAction::Play(PlayAction::WildDraw(_)) => 4,
            TurnAction::Draw => 2,
            TurnAction::Callout => if self.offenders().len() == 0 {
                2
            } else {
                2 * self.offenders().len()
            },
            TurnAction::Uno => if self.players[self.current_pos()].hand.len() == 1 {
                0
            } else {
                2
            },
        }
    }

    /// A coloured card played from the current player's hand: its first copy
    /// leaves the hand, it becomes the face-up card, and its rank takes
    /// effect.
    pub open spec fn played_colored(self, card: Card) -> (UnoModel, TurnOutcome) {
        let cp = self.current_pos();
        let i = choose|i: int| is_first_index(self.players[cp].hand, card, i);
        match card {
            Card::Colored(color, rank) => {
                let s = UnoModel {
                    players: self.players.update(cp, self.players[cp].discard(i)),
                    last_played: PlayedCard::Colored(color, rank),
                    ..self
                };
                match rank {
                    ColoredCard::Skip => (s.advanced(2), TurnOutcome::Skip),
                    ColoredCard::Reverse => (s.reversed_direction(), TurnOutcome::Reverse),
                    ColoredCard::Draw => (s.draw_to(s.next_pos(), 2).advanced(1), TurnOutcome::Draw),
                    ColoredCard::Number(_) => (s.advanced(1), TurnOutcome::Neutral),
                }
            },
            _ => (self, TurnOutcome::CardNotInHand),
        }
    }

    /// The effect of an action that the current player can carry out.
    pub open spec fn applied(self, action: TurnAction) -> (UnoModel, TurnOutcome) {
        let cp = self.current_pos();
        match action {
            TurnAction::Play(PlayAction::ColoredCard(card)) => self.played_colored(card),
            TurnAction::Play(PlayAction::Wild(color)) => (
                UnoModel { last_played: PlayedCard::Wild(color), ..self }.advanced(1),
                TurnOutcome::Wild,
            ),
            TurnAction::Play(PlayAction::WildDraw(color)) => (
                UnoModel { last_played: PlayedCard::WildDraw(color), ..self }.draw_to(
                    self.next_pos(),
                    4,
                ).advanced(1),
                TurnOutcome::WildDraw,
            ),
            TurnAction::Draw => (self.draw_to(cp, 2), TurnOutcome::SelfDraw),
            TurnAction::Callout => (
                self.called_out(),
                if self.offenders().len() == 0 {
                    TurnOutcome::CalloutFailed
                } else {
                    TurnOutcome::CalledOut(self.offender_ids())
                },
            ),
            TurnAction::Uno => (
                self.uno_called(),
                if self.players[cp].hand.len() == 1 {
                    TurnOutcome::UnoSuccessful
                } else {
                    TurnOutcome::UnoFailed
                },
            ),
        }
    }

    /// The action resolved for the current player, before the win check: a
    /// card that is not in the hand, or a pile too short for the draws the
    /// action makes, leaves everything as it was.
    pub open spec fn resolved(self, action: TurnAction) -> (UnoModel, TurnOutcome) {
        if action matches TurnAction::Play(PlayAction::ColoredCard(card)) && (!(card is Colored)
            || !self.players[self.current_pos()].hand.contains(card)) {
            (self, TurnOutcome::CardNotInHand)
        } else if self.deck.len() < self.draws_needed(action) {
            (self, TurnOutcome::DeckExhausted)
        } else {
            self.applied(action)
        }
    }

    /// The player at `pos` leaves the active players for the end of the
    /// winners when their hand is empty; the stored index is then taken
    /// modulo the new number of players.
    pub open spec fn settled(self, pos: int) -> (UnoModel, bool) {
        if self.players[pos].hand.len() == 0 {
            let rest = self.players.remove(pos);
            (
                UnoModel {
                    players: rest,
                    winners: self.winners.push(self.players[pos]),
                    index: if rest.len() == 0 {
                        0
                    } else {
                        self.index % (rest.len() as int)
                    },
                    ..self
                },
                true,
            )
        } else {
            (self, false)
        }
    }

    /// One turn: the state after it, the outcome, and whether the acting
    /// player won. A refused action changes nothing and wins nothing.
    pub open spec fn step(self, action: TurnAction) -> (UnoModel, TurnOutcome, bool) {
        let (s, outcome) = self.resolved(action);
        if outcome is CardNotInHand || outcome is DeckExhausted {
            (self, outcome, false)
        } else {
            let (t, won) = s.settled(self.current_pos());
            (t, outcome, won)
        }
    }

    /// The direction flipped, with the turn staying on the same player.
    pub open spec fn reversed_direction(self) -> UnoModel {
        UnoModel { reversed: !self.reversed, index: self.count() - 1 - self.index, ..self }
    }
}

/// The rules engine for one match.
#[derive(Debug)]
pub struct Uno {
    deck: Deck,
    players: Vec<Player>,
    winners: Vec<Player>,
    current_turn_player_id_index: usize,
    player_order_reversed: bool,
    last_played_card: PlayedCard,
}

impl View for Uno {
    type V = UnoModel;

    closed spec fn view(&self) -> UnoModel {
        UnoModel {
            deck: self.deck@,
            players: self.players@.map_values(|p: Player| p@),
            winners: self.winners@.map_values(|p: Player| p@),
            index: self.current_turn_player_id_index as int,
            reversed: self.player_order_reversed,
            last_played: self.last_played_card,
        }
    }
}

/// Well-formedness only looks at the ids, the winners and the stored index.
pub(crate) proof fn lemma_wf_same_ids(s: UnoModel, t: UnoModel)
    requires
        s.wf(),
        t.count() == s.count(),
        forall|i: int| 0 <= i < s.count() ==> #[trigger] t.players[i].id == s.players[i].id,
        t.winners == s.winners,
        0 <= t.index,
        t.count() > 0 ==> t.index < t.count(),
        t.count() == 0 ==> t.index == 0,
    ensures
        t.wf(),
{
    assert forall|i: int, j: int| 0 <= i < j < t.count() implies #[trigger] t.players[i].id
        < #[trigger] t.players[j].id by {
        assert(t.players[i].id == s.players[i].id);
        assert(t.players[j].id == s.players[j].id);
    }
    assert forall|i: int, j: int| 0 <= i < t.winners.len() && 0 <= j < t.count() implies #[trigger] t.winners[i].id
        != #[trigger] t.players[j].id by {
        assert(t.players[j].id == s.players[j].id);
    }
}

pub(crate) proof fn lemma_offenders_in_range(s: UnoModel, k: int, m: int)
    requires
        0 <= m < s.offenders_before(k).len(),
    ensures
        0 <= s.offenders_before(k)[m] < k,
    decreases k,
{
    if k > 0 {
        if m < s.offenders_before(k - 1).len() {
            lemma_offenders_in_range(s, k - 1, m);
        }
    }
}

/// Penalty draws take two cards each off the front of the pile and leave the
/// ids, the turn and the face-up card alone.
pub(crate) proof fn lemma_penalized_frame(s: UnoModel, ps: Seq<int>)
    requires
        s.deck.len() >= 2 * ps.len(),
        forall|k: int| 0 <= k < ps.len() ==> 0 <= #[trigger] ps[k] < s.count(),
    ensures
        s.penalized(ps).deck == s.deck.skip(2 * ps.len() as int),
        s.penalized(ps).count() == s.count(),
        forall|i: int| 0 <= i < s.count() ==> #[trigger] s.penalized(ps).players[i].id == s.players[i].id,
        s.penalized(ps).index == s.index,
        s.penalized(ps).reversed == s.reversed,
        s.penalized(ps).winners == s.winners,
        s.penalized(ps).last_played == s.last_played,
    decreases ps.len(),
{
    if ps.len() > 0 {
        lemma_penalized_frame(s, ps.drop_last());
        let t = s.penalized(ps.drop_last());
        assert(t.deck.skip(2) == s.deck.skip(2 * ps.len() as int));
    }
}

proof fn lemma_views_update(before: Seq<Player>, pos: int, p: Player)
    requires
        0 <= pos < before.len(),
    ensures
        before.update(pos, p).map_values(|q: Player| q@) == before.map_values(|q: Player| q@).update(
            pos,
            p@,
        ),
{
    assert(before.update(pos, p).map_values(|q: Player| q@) =~= before.map_values(
        |q: Player| q@,
    ).update(pos, p@));
}

pub(crate) proof fn lemma_called_out_frame(s: UnoModel)
    requires
        s.wf(),
        s.count() > 0,
        s.deck.len() >= s.draws_needed(TurnAction::Callout),
    ensures
        s.called_out().count() == s.count(),
        forall|i: int| 0 <= i < s.count() ==> #[trigger] s.called_out().players[i].id == s.players[i].id,
        s.called_out().winners == s.winners,
        s.called_out().index == s.index,
        s.called_out().reversed == s.reversed,
        s.called_out().last_played == s.last_played,
{
    let offs = s.offenders();
    assert forall|k: int| 0 <= k < offs.len() implies 0 <= #[trigger] offs[k] < s.count() by {
        lemma_offenders_in_range(s, s.count(), k);
    }
    lemma_penalized_frame(s, offs);
}

/// A pile without coloured cards holds only the wild cards it counts.
proof fn lemma_uncolored_len(s: Seq<Card>)
    requires
        forall|i: int| 0 <= i < s.len() ==> !(#[trigger] s[i] is Colored),
    ensures
        s.len() == s.to_multiset().count(Card::Wild) + s.to_multiset().count(Card::WildDraw),
    decreases s.len(),
{
    broadcast use vstd::seq_lib::group_to_multiset_ensures, vstd::multiset::group_multiset_axioms;

    if s.len() == 0 {
    } else {
        let t = s.drop_last();
        assert(s == t.push(s.last()));
        assert forall|i: int| 0 <= i < t.len() implies !(#[trigger] t[i] is Colored) by {
            assert(t[i] == s[i]);
        }
        lemma_uncolored_len(t);
        assert(!(s[s.len() - 1] is Colored));
    }
}

/// What is left of a standard deck after dealing from its front still holds a
/// coloured card while more than eight cards remain.
proof fn lemma_rest_has_colored(full: Seq<Card>, dealt: int)
    requires
        is_standard_deck(full),
        0 <= dealt <= full.len(),
        full.len() - dealt > 8,
    ensures
        exists|i: int| 0 <= i < full.skip(dealt).len() && (#[trigger] full.skip(dealt)[i]) is Colored,
{
    broadcast use vstd::seq_lib::group_to_multiset_ensures, vstd::multiset::group_multiset_axioms;

    let rest = full.skip(dealt);
    assert(full == full.take(dealt) + rest);
    vstd::seq_lib::lemma_multiset_commutative(full.take(dealt), rest);
    assert(full.to_multiset().count(Card::Wild) == 4);
    assert(full.to_multiset().count(Card::WildDraw) == 4);
    if forall|i: int| 0 <= i < rest.len() ==> !(#[trigger] rest[i] is Colored) {
        lemma_uncolored_len(rest);
    }
}

/// Some id up to `k` is missing from a set of at most `k` ids.
proof fn lemma_free_id_exists(taken: Set<u64>, k: int)
    requires
        taken.finite(),
        taken.len() <= k,
        0 <= k < u64::MAX,
    ensures
        exists|c: u64| c <= k && !taken.contains(c),
{
    if forall|c: u64| c <= k ==> #[trigger] taken.contains(c) {
        let as_ints = taken.map(|x: u64| x as int);
        vstd::set_lib::lemma_map_size_bound(taken, as_ints, |x: u64| x as int);
        vstd::set_lib::lemma_int_range(0, k + 1);
        assert forall|i: int| vstd::set_lib::set_int_range(0, k + 1).contains(i) implies as_ints.contains(i) by {
            assert(taken.contains(i as u64));
        }
        vstd::set_lib::lemma_len_subset(vstd::set_lib::set_int_range(0, k + 1), as_ints);
    }
}

/// Two id lists without repeats that hold the same ids give the same
/// multiset of names, whatever their order.
proof fn lemma_same_ids_same_names(a: Seq<u64>, b: Seq<u64>, f: spec_fn(u64) -> Seq<char>)
    requires
        a.no_duplicates(),
        b.no_duplicates(),
        a.to_set() == b.to_set(),
    ensures
        a.map_values(f).to_multiset() == b.map_values(f).to_multiset(),
    decreases a.len(),
{
    broadcast use vstd::seq_lib::group_to_multiset_ensures, vstd::multiset::group_multiset_axioms;

    if a.len() == 0 {
        if b.len() > 0 {
            assert(b.to_set().contains(b[0]));
        }
        assert(a.map_values(f) =~= b.map_values(f));
    } else {
        let n = a.len() - 1;
        let x = a[n];
        let a2 = a.drop_last();
        assert(a.to_set().contains(x));
        let k = choose|k: int| 0 <= k < b.len() && b[k] == x;
        let b2 = b.remove(k);
        assert forall|y: u64| a2.to_set().contains(y) <==> b2.to_set().contains(y) by {
            if a2.to_set().contains(y) {
                let i = choose|i: int| 0 <= i < a2.len() && a2[i] == y;
                assert(a[i] == y);
                assert(a.to_set().contains(y));
                let m = choose|m: int| 0 <= m < b.len() && b[m] == y;
                if m < k {
                    assert(b2[m] == y);
                } else {
                    assert(m != k);
                    assert(b2[m - 1] == y);
                }
            }
            if b2.to_set().contains(y) {
                let m = choose|m: int| 0 <= m < b2.len() && b2[m] == y;
                let m0 = if m < k {
                    m
                } else {
                    m + 1
                };
                assert(b[m0] == y);
                assert(b.to_set().contains(y));
                let i = choose|i: int| 0 <= i < a.len() && a[i] == y;
                assert(i != n);
                assert(a2[i] == y);
            }
        }
        assert(a2.to_set() =~= b2.to_set());
        assert(a2.no_duplicates()) by {
            assert forall|i: int, j: int| 0 <= i < a2.len() && 0 <= j < a2.len() && i != j implies a2[i]
                != a2[j] by {
                assert(a2[i] == a[i] && a2[j] == a[j]);
            }
        }
        assert(b2.no_duplicates()) by {
            assert forall|i: int, j: int| 0 <= i < b2.len() && 0 <= j < b2.len() && i != j implies b2[i]
                != b2[j] by {
                let i0 = if i < k {
                    i
                } else {
                    i + 1
                };
                let j0 = if j < k {
                    j
                } else {
                    j + 1
                };
                assert(b2[i] == b[i0] && b2[j] == b[j0]);
            }
        }
        lemma_same_ids_same_names(a2, b2, f);
        assert(a.map_values(f) =~= a2.map_values(f).push(f(x)));
        assert(b.map_values(f).remove(k) =~= b2.map_values(f));
        assert(b.map_values(f)[k] == f(x));
        assert(a.map_values(f).to_multiset() =~= b.map_values(f).to_multiset());
    }
}

/// Relies on rand's `Rng::gen` over the thread-local generator for a `u64`;
/// nothing is known of the value.
#[verifier::external_body]
fn random_id() -> u64 {
    rand::thread_rng().gen()
}

/// A random id that `taken` does not hold yet; should the draw collide, the
/// smallest free id.
fn fresh_id(taken: &BTreeMap<u64, String>) -> (r: u64)
    requires
        taken@.len() <= 10,
    ensures
        !taken@.contains_key(r),
{
    broadcast use vstd::std_specs::btree::group_btree_axioms, vstd::laws_cmp::group_laws_cmp;

    let candidate = random_id();
    if !taken.contains_key(&candidate) {
        return candidate;
    }
    let k = taken.len() as u64;
    let mut c: u64 = 0;
    while c <= k
        invariant
            k == taken@.len(),
            k <= 10,
            forall|d: u64| d < c ==> #[trigger] taken@.contains_key(d),
        decreases k + 1 - c,
    {
        if !taken.contains_key(&c) {
            return c;
        }
        c = c + 1;
    }
    proof {
        lemma_free_id_exists(taken@.dom(), k as int);
    }
    vstd::pervasive::unreached()
}

proof fn lemma_mod_step_up(a: int, c: int)
    requires
        c > 0,
    ensures
        a % c == c - 1 ==> (a + 1) % c == 0,
        a % c != c - 1 ==> (a + 1) % c == a % c + 1,
{
    vstd::arithmetic::div_mod::lemma_add_mod_noop(a, 1, c);
    vstd::arithmetic::div_mod::lemma_mod_bound(a, c);
    if c > 1 {
        vstd::arithmetic::div_mod::lemma_small_mod(1, c as nat);
        if a % c != c - 1 {
            vstd::arithmetic::div_mod::lemma_small_mod((a % c + 1) as nat, c as nat);
        }
    }
    vstd::arithmetic::div_mod::lemma_mod_self_0(c);
}

impl Uno {
    /// Sets up a match for players known by name only, giving each a random
    /// id not taken by another.
    pub fn new(player_names: Vec<String>) -> (r: Result<Uno, UnoError>)
        ensures
            player_names@.len() < 2 ==> r matches Err(UnoError::NotEnoughPlayers),
            player_names@.len() > 10 ==> r matches Err(UnoError::TooManyPlayers),
            2 <= player_names@.len() <= 10 ==> (r matches Ok(g) && g@.is_fresh_deal()
                && g@.players.map_values(|p: PlayerView| p.name).to_multiset()
                == player_names@.map_values(|s: String| s@).to_multiset()),
    {
        broadcast use vstd::std_specs::btree::group_btree_axioms, vstd::laws_cmp::group_laws_cmp;

        if player_names.len() < 2 {
            return Err(UnoError::NotEnoughPlayers);
        }
        if player_names.len() > 10 {
            return Err(UnoError::TooManyPlayers);
        }
        let mut players_info: BTreeMap<u64, String> = BTreeMap::new();
        let ghost mut order: Seq<u64> = Seq::empty();
        proof {
            assert(order.to_set() =~= players_info@.dom());
        }
        let mut j: usize = 0;
        while j < player_names.len()
            invariant
                j <= player_names@.len(),
                player_names@.len() <= 10,
                players_info@.len() == j,
                players_info@.dom().finite(),
                order.len() == j,
                order.no_duplicates(),
                order.to_set() == players_info@.dom(),
                forall|m: int|
                    0 <= m < j ==> (#[trigger] players_info@[order[m]])@ == player_names@[m]@,
            decreases player_names@.len() - j,
        {
            let id = fresh_id(&players_info);
            let ghost before = players_info@;
            players_info.insert(id, player_names[j].clone());
            assert(players_info@.dom() == before.dom().insert(id));
            proof {
                let old_order = order;
                order = order.push(id);
                assert(order.to_set() =~= players_info@.dom()) by {
                    assert forall|y: u64| order.to_set().contains(y) implies players_info@.dom().contains(y) by {
                        let m = choose|m: int| 0 <= m < order.len() && order[m] == y;
                        if m < old_order.len() {
                            assert(old_order[m] == y);
                            assert(old_order.to_set().contains(y));
                        }
                    }
                    assert forall|y: u64| players_info@.dom().contains(y) implies order.to_set().contains(y) by {
                        if y == id {
                            assert(order[old_order.len() as int] == y);
                        } else {
                            assert(old_order.to_set().contains(y));
                            let m = choose|m: int| 0 <= m < old_order.len() && old_order[m] == y;
                            assert(order[m] == y);
                        }
                    }
                }
                assert forall|m: int| 0 <= m < j + 1 implies (#[trigger] players_info@[order[m]])@ == player_names@[m]@ by {
                    if m < j {
                        assert(order[m] == old_order[m]);
                        assert(old_order.to_set().contains(old_order[m]));
                        assert(old_order[m] != id);
                    }
                }
                assert(order.no_duplicates()) by {
                    assert forall|a: int, b: int| 0 <= a < order.len() && 0 <= b < order.len() && a != b implies order[a] != order[b] by {
                        if a < j && b < j {
                            assert(order[a] == old_order[a] && order[b] == old_order[b]);
                        } else if a < j {
                            assert(old_order.to_set().contains(old_order[a]));
                        } else if b < j {
                            assert(old_order.to_set().contains(old_order[b]));
                        }
                    }
                }
            }
            j = j + 1;
        }
        let ghost info = players_info@;
        let r = Self::new_with_ids(players_info);
        proof {
            if r is Ok {
                let g = r->Ok_0;
                let name_of = |id: u64| info[id]@;
                assert(g@.ids().no_duplicates()) by {
                    assert forall|a: int, b: int| 0 <= a < g@.ids().len() && 0 <= b < g@.ids().len() && a != b implies g@.ids()[a] != g@.ids()[b] by {
                        if a < b {
                            assert(g@.players[a].id < g@.players[b].id);
                        } else {
                            assert(g@.players[b].id < g@.players[a].id);
                        }
                    }
                }
                lemma_same_ids_same_names(g@.ids(), order, name_of);
                assert(g@.players.map_values(|p: PlayerView| p.name) =~= g@.ids().map_values(name_of));
                assert(player_names@.map_values(|s: String| s@) =~= order.map_values(name_of));
            }
        }
        r
    }

    /// Sets up a match for the players of `players_info`, keyed by their ids:
    /// shuffles a full deck, deals seven cards to each player in ascending
    /// order of id, and turns up the first coloured card of the pile.
    pub fn new_with_ids(players_info: BTreeMap<u64, String>) -> (r: Result<Uno, UnoError>)
        ensures
            players_info@.len() < 2 ==> r matches Err(UnoError::NotEnoughPlayers),
            players_info@.len() > 10 ==> r matches Err(UnoError::TooManyPlayers),
            2 <= players_info@.len() <= 10 ==> (r matches Ok(g) && g@.is_new_match(
                players_info@,
            )),
    {
        broadcast use vstd::std_specs::btree::group_btree_axioms, vstd::laws_cmp::group_laws_cmp;

        if players_info.len() < 2 {
            return Err(UnoError::NotEnoughPlayers);
        }
        if players_info.len() > 10 {
            return Err(UnoError::TooManyPlayers);
        }
        let mut deck = Deck::new();
        deck.shuffle();
        proof {
            assert forall|c: Card| #[trigger] deck@.to_multiset().count(c) == crate::deck::standard_count(c) by {
            }
        }
        let ghost shuffled = deck@;
        let mut players: Vec<Player> = Vec::new();
        for (player_id, player_name) in it: players_info.iter()
            invariant
                is_standard_deck(shuffled),
                players_info@.len() <= 10,
                it.seq().len() == players_info@.len(),
                forall|k: int|
                    0 <= k < it.seq().len() ==> players_info@.contains_key(*(#[trigger] it.seq()[k]).0)
                        && players_info@[*it.seq()[k].0] == *it.seq()[k].1,
                forall|key: u64| #[trigger]
                    players_info@.contains_key(key) ==> it.seq().contains(
                        (&key, &players_info@[key]),
                    ),
                vstd::std_specs::btree::increasing_seq(
                    it.seq().map_values(|kv: (&u64, &String)| *kv.0),
                ),
                players@.len() == it.index(),
                deck@ == shuffled.skip(7 * it.index()),
                shuffled.to_multiset() == deck@.to_multiset().add(
                    hands_multiset(players@.map_values(|p: Player| p@)),
                ),
                forall|k: int|
                    0 <= k < it.index() ==> (#[trigger] players@[k])@.id == *it.seq()[k].0
                        && players@[k]@.name == it.seq()[k].1@ && players@[k]@.hand.len() == 7
                        && !players@[k]@.uno_performed,
                forall|k: int|
                    0 <= k < it.index() ==> players_info@.contains_key((#[trigger] players@[k]).id)
                        && players@[k]@.name == players_info@[players@[k].id]@,
                forall|i: int, j: int|
                    0 <= i < j < it.index() ==> (#[trigger] players@[i]).id
                        < (#[trigger] players@[j]).id,
        {
            let cards = match deck.draw_cards(7) {
                Some(cards) => cards,
                None => vstd::pervasive::unreached(),
            };
            assert(shuffled.skip(7 * it.index()).skip(7) == shuffled.skip(7 * (it.index() + 1)));
            proof {
                let keys = it.seq().map_values(|kv: (&u64, &String)| *kv.0);
                assert(*player_id == keys[it.index() as int]);
                assert forall|k: int| 0 <= k < it.index() implies players@[k].id < *player_id by {
                    assert(keys[k].cmp_spec(&keys[it.index() as int]) is Less);
                }
            }
            let ghost views_before = players@.map_values(|p: Player| p@);
            let ghost deck_before = shuffled.skip(7 * it.index());
            players.push(Player::new(*player_id, player_name.clone(), cards));
            proof {
                let views = players@.map_values(|p: Player| p@);
                assert(views.drop_last() == views_before);
                assert(deck_before == cards@ + deck@);
                vstd::seq_lib::lemma_multiset_commutative(cards@, deck@);
                assert(shuffled.to_multiset() =~= deck@.to_multiset().add(hands_multiset(views)));
            }
        }
        let ghost n = players@.len() as int;
        let ghost ids = players@.map_values(|p: Player| p@).map_values(|p: PlayerView| p.id);
        proof {
            assert(ids.no_duplicates()) by {
                assert forall|i: int, j: int| 0 <= i < ids.len() && 0 <= j < ids.len() && i != j implies ids[i] != ids[j] by {
                    if i < j {
                        assert(players@[i].id < players@[j].id);
                    } else {
                        assert(players@[j].id < players@[i].id);
                    }
                }
            }
            ids.unique_seq_to_set();
            assert(ids.to_set().subset_of(players_info@.dom())) by {
                assert forall|x: u64| ids.to_set().contains(x) implies players_info@.dom().contains(x) by {
                    let k = choose|k: int| 0 <= k < ids.len() && ids[k] == x;
                    assert(players_info@.contains_key(players@[k].id));
                }
            }
            vstd::set_lib::lemma_subset_equality(ids.to_set(), players_info@.dom());
        }
        proof {
            lemma_rest_has_colored(shuffled, 7 * n);
        }
        let ghost deck_before = deck@;
        let drawn = deck.draw_colored_card();
        let last_played_card = match drawn {
            Some(Card::Colored(color, rank)) => rank.into_played_card(color),
            _ => vstd::pervasive::unreached(),
        };
        proof {
            broadcast use vstd::seq_lib::group_to_multiset_ensures, vstd::multiset::group_multiset_axioms;

            let i = choose|i: int|
                is_first_colored(deck_before, i) && drawn == Some(deck_before[i]) && deck@
                    == deck_before.remove(i);
            assert(card_of_played(last_played_card) == deck_before[i]);
            let hands = hands_multiset(players@.map_values(|p: Player| p@));
            assert(deck@.to_multiset().add(hands).insert(deck_before[i]) =~= shuffled.to_multiset());
        }
        let winners: Vec<Player> = Vec::new();
        let uno = Uno {
            deck,
            players,
            winners,
            current_turn_player_id_index: 0,
            player_order_reversed: false,
            last_played_card,
        };
        Ok(uno)
    }

    /// Position in `players` of the `n`-th player from the current one.
    fn nth_turn_position(&self, n: usize) -> (r: usize)
        requires
            self@.wf(),
            self@.count() > 0,
        ensures
            r == self@.nth_pos(n as int),
            0 <= r < self@.count(),
    {
        let len = self.players.len();
        let k = (self.current_turn_player_id_index + n % len) % len;
        proof {
            vstd::arithmetic::div_mod::lemma_add_mod_noop_right(
                self@.index,
                n as int,
                len as int,
            );
        }
        if self.player_order_reversed {
            len - 1 - k
        } else {
            k
        }
    }

    /// The active players' ids in turn order: ascending, or descending when
    /// the direction is reversed.
    pub fn get_order_aware_player_ids(&self) -> (r: Vec<u64>)
        ensures
            r@.len() == self@.count(),
            forall|k: int| 0 <= k < self@.count() ==> #[trigger] r@[k] == self@.players[self@.order_pos(k)].id,
    {
        let len = self.players.len();
        let mut ids: Vec<u64> = Vec::new();
        for k in 0..len
            invariant
                len == self@.count(),
                ids@.len() == k,
                forall|j: int| 0 <= j < k ==> #[trigger] ids@[j] == self@.players[self@.order_pos(j)].id,
        {
            let pos = if self.player_order_reversed {
                len - 1 - k
            } else {
                k
            };
            ids.push(self.players[pos].id);
        }
        ids
    }

    fn get_nth_turn_player_id(&self, n: usize) -> (r: u64)
        requires
            self@.wf(),
            self@.count() > 0,
        ensures
            r == self@.nth_id(n as int),
    {
        let player_ids = self.get_order_aware_player_ids();
        let len = player_ids.len();
        proof {
            vstd::arithmetic::div_mod::lemma_add_mod_noop_right(
                self@.index,
                n as int,
                len as int,
            );
        }
        player_ids[(self.current_turn_player_id_index + n % len) % len]
    }

    /// Id of the player whose turn it is.
    pub fn get_current_turn_player_id(&self) -> (r: u64)
        requires
            self@.wf(),
            self@.count() > 0,
        ensures
            r == self@.current_id(),
    {
        self.get_nth_turn_player_id(0)
    }

    /// Id of the player who comes after the current one.
    pub fn get_next_turn_player_id(&self) -> (r: u64)
        requires
            self@.wf(),
            self@.count() > 0,
        ensures
            r == self@.next_id(),
    {
        self.get_nth_turn_player_id(1)
    }

    /// The active players' ids, ascending.
    pub fn get_player_ids(&self) -> (r: Vec<u64>)
        ensures
            r@ == self@.ids(),
    {
        let mut ids: Vec<u64> = Vec::new();
        for i in 0..self.players.len()
            invariant
                ids@ == self@.ids().take(i as int),
        {
            ids.push(self.players[i].id);
            assert(self@.ids().take(i + 1) == self@.ids().take(i as int).push(self@.ids()[i as int]));
        }
        assert(self@.ids().take(self.players@.len() as int) == self@.ids());
        ids
    }

    /// Position of the active player with id `player_id`.
    fn player_position(&self, player_id: u64) -> (r: Option<usize>)
        ensures
            match r {
                Some(i) => i < self@.count() && self@.players[i as int].id == player_id,
                None => !self@.ids().contains(player_id),
            },
    {
        let mut i: usize = 0;
        while i < self.players.len()
            invariant
                i <= self@.count(),
                forall|j: int| 0 <= j < i ==> self@.players[j].id != player_id,
            decreases self@.count() - i,
        {
            if self.players[i].id == player_id {
                return Some(i);
            }
            i = i + 1;
        }
        None
    }

    /// Position among the winners of the player with id `player_id`.
    fn winner_position(&self, player_id: u64) -> (r: Option<usize>)
        ensures
            match r {
                Some(i) => i < self@.winners.len() && self@.winners[i as int].id == player_id,
                None => !self@.winner_ids().contains(player_id),
            },
    {
        let mut i: usize = 0;
        while i < self.winners.len()
            invariant
                i <= self@.winners.len(),
                forall|j: int| 0 <= j < i ==> self@.winners[j].id != player_id,
            decreases self@.winners.len() - i,
        {
            if self.winners[i].id == player_id {
                return Some(i);
            }
            i = i + 1;
        }
        None
    }

    /// The record of the player with id `player_id`: an active player, or
    /// else one who has already won.
    pub fn get_player(&self, player_id: &u64) -> (r: Option<&Player>)
        ensures
            match r {
                Some(p) => p@.id == *player_id && (self@.players.contains(p@) || (
                !self@.ids().contains(*player_id) && self@.winners.contains(p@))),
                None => !self@.ids().contains(*player_id) && !self@.winner_ids().contains(
                    *player_id,
                ),
            },
    {
        match self.player_position(*player_id) {
            Some(i) => Some(&self.players[i]),
            None => match self.winner_position(*player_id) {
                Some(i) => Some(&self.winners[i]),
                None => None,
            },
        }
    }

    /// The record of the player with id `player_id`, as `get_player` finds
    /// it, for changing in place.
    pub fn get_player_mut(&mut self, player_id: &u64) -> (r: Option<&mut Player>)
        ensures
            match r {
                Some(p) => p@.id == *player_id && ((exists|i: int|
                    0 <= i < old(self)@.count() && p@ == old(self)@.players[i] && final(self)@ == (
                    UnoModel { players: old(self)@.players.update(i, final(p)@), ..old(self)@ }))
                    || (!old(self)@.ids().contains(*player_id) && exists|i: int|
                    0 <= i < old(self)@.winners.len() && p@ == old(self)@.winners[i] && final(self)@
                        == (UnoModel {
                        winners: old(self)@.winners.update(i, final(p)@),
                        ..old(self)@
                    }))),
                None => !old(self)@.ids().contains(*player_id) && !old(self)@.winner_ids().contains(
                    *player_id,
                ) && final(self)@ == old(self)@,
            },
    {
        match self.player_position(*player_id) {
            Some(i) => {
                let p = &mut self.players[i];
                assert(after_borrow(self.players)@.map_values(|q: Player| q@) =~= old(
                    self,
                )@.players.update(i as int, final(p)@));
                Some(p)
            },
            None => match self.winner_position(*player_id) {
                Some(i) => {
                    let p = &mut self.winners[i];
                    assert(after_borrow(self.winners)@.map_values(|q: Player| q@) =~= old(
                        self,
                    )@.winners.update(i as int, final(p)@));
                    Some(p)
                },
                None => None,
            },
        }
    }

    /// Number of cards left in the draw pile.
    pub fn get_deck_cards_count(&self) -> (r: usize)
        ensures
            r == self@.deck.len(),
    {
        self.deck.cards_count()
    }

    /// The face-up card.
    pub fn get_last_played_card(&self) -> (r: &PlayedCard)
        ensures
            *r == self@.last_played,
    {
        &self.last_played_card
    }

    /// The stored turn index.
    pub fn current_turn_index(&self) -> (r: usize)
        ensures
            r == self@.index,
    {
        self.current_turn_player_id_index
    }

    /// Puts the turn on place `index` of the direction-aware order.
    pub fn set_current_turn_index(&mut self, index: usize)
        requires
            old(self)@.wf(),
            index < old(self)@.count(),
        ensures
            final(self)@ == (UnoModel { index: index as int, ..old(self)@ }),
            final(self)@.wf(),
    {
        self.current_turn_player_id_index = index;
    }

    /// Moves the turn `n` places on along the direction-aware order,
    /// wrapping around: the `n`-th player from the current one gets it.
    pub fn move_turn_n_players_ahead(&mut self, n: usize)
        requires
            old(self)@.wf(),
            old(self)@.count() > 0,
        ensures
            final(self)@ == old(self)@.advanced(n as nat),
            final(self)@.current_id() == old(self)@.nth_id(n as int),
            final(self)@.wf(),
    {
        let len = self.players.len();
        proof {
            vstd::arithmetic::div_mod::lemma_small_mod(old(self)@.index as nat, len as nat);
        }
        for k in 0..n
            invariant
                len == self@.count(),
                len > 0,
                old(self)@.wf(),
                self@ == old(self)@.advanced(k as nat),
                self@.wf(),
        {
            let ghost i0 = old(self)@.index;
            proof {
                lemma_mod_step_up(i0 + k, len as int);
            }
            self.current_turn_player_id_index = if self.current_turn_player_id_index == len - 1 {
                0
            } else {
                self.current_turn_player_id_index + 1
            };
            assert(i0 + k + 1 == i0 + (k + 1));
            proof {
                lemma_wf_same_ids(old(self)@, self@);
            }
        }
        proof {
            vstd::arithmetic::div_mod::lemma_mod_twice(old(self)@.index + n, len as int);
        }
    }

    /// Deals the first `count` cards of the pile to the player at `pos`.
    fn draw_cards_to_player(&mut self, pos: usize, count: usize)
        requires
            old(self)@.wf(),
            pos < old(self)@.count(),
            count <= old(self)@.deck.len(),
        ensures
            final(self)@ == old(self)@.draw_to(pos as int, count as nat),
            final(self)@.wf(),
    {
        let cards = match self.deck.draw_cards(count) {
            Some(cards) => cards,
            None => vstd::pervasive::unreached(),
        };
        proof {
            let p = old(self)@.players[pos as int];
            assert(p.hand + cards@.take(0) =~= p.hand);
            assert(old(self)@.players.update(pos as int, p.receive(cards@.take(0)))
                =~= old(self)@.players);
        }
        for j in 0..cards.len()
            invariant
                cards@ == old(self)@.deck.take(count as int),
                pos < self.players@.len(),
                self.players@.len() == old(self)@.count(),
                self@ == (UnoModel {
                    players: old(self)@.players.update(
                        pos as int,
                        old(self)@.players[pos as int].receive(cards@.take(j as int)),
                    ),
                    ..old(self)@.draw_to(pos as int, count as nat)
                }),
        {
            let ghost p = old(self)@.players[pos as int];
            let ghost before = self.players@;
            assert(before[pos as int]@ == self@.players[pos as int]);
            let c = cards[j];
            self.players[pos].add_card(c);
            proof {
                lemma_views_update(before, pos as int, self.players@[pos as int]);
                assert(cards@.take(j + 1) == cards@.take(j as int).push(c));
                assert(p.hand + cards@.take(j as int) + seq![c] =~= p.hand + cards@.take(j + 1));
                assert(self.players@[pos as int]@ == p.receive(cards@.take(j + 1)));
                assert(old(self)@.players.update(pos as int, p.receive(cards@.take(j as int))).update(
                    pos as int,
                    p.receive(cards@.take(j + 1)),
                ) =~= old(self)@.players.update(pos as int, p.receive(cards@.take(j + 1))));
            }
        }
        assert(cards@.take(cards@.len() as int) == cards@);
    }

    /// Every opponent of the current player who holds a single card takes
    /// two cards, and their ids come back in ascending order; when there is
    /// none, the current player takes two cards.
    pub fn perform_callout(&mut self) -> (r: Vec<u64>)
        requires
            old(self)@.wf(),
            old(self)@.count() > 0,
            old(self)@.deck.len() >= old(self)@.draws_needed(TurnAction::Callout),
        ensures
            final(self)@ == old(self)@.called_out(),
            r@ == old(self)@.offender_ids(),
            final(self)@.wf(),
    {
        let cp = self.nth_turn_position(0);
        let mut positions: Vec<usize> = Vec::new();
        let mut called_out_player_ids: Vec<u64> = Vec::new();
        for i in 0..self.players.len()
            invariant
                self@ == old(self)@,
                cp == self@.current_pos(),
                positions@.len() == self@.offenders_before(i as int).len(),
                forall|k: int|
                    0 <= k < positions@.len() ==> #[trigger] positions@[k] as int
                        == self@.offenders_before(i as int)[k],
                called_out_player_ids@ == self@.offenders_before(i as int).map_values(
                    |pos: int| self@.players[pos].id,
                ),
        {
            if i != cp && self.players[i].cards_count() == 1 {
                positions.push(i);
                called_out_player_ids.push(self.players[i].id);
            }
            assert(called_out_player_ids@ =~= self@.offenders_before(i + 1).map_values(
                |pos: int| self@.players[pos].id,
            ));
        }
        let ghost offs = self@.offenders();
        proof {
            assert forall|k: int| 0 <= k < offs.len() implies 0 <= #[trigger] offs[k] < self@.count() by {
                lemma_offenders_in_range(self@, self@.count(), k);
            }
        }
        if positions.len() == 0 {
            self.draw_cards_to_player(cp, 2);
        } else {
            for j in 0..positions.len()
                invariant
                    offs == old(self)@.offenders(),
                    positions@.len() == offs.len(),
                    forall|k: int| 0 <= k < positions@.len() ==> #[trigger] positions@[k] as int == offs[k],
                    forall|k: int| 0 <= k < offs.len() ==> 0 <= #[trigger] offs[k] < old(self)@.count(),
                    old(self)@.deck.len() >= 2 * offs.len(),
                    old(self)@.wf(),
                    self@ == old(self)@.penalized(offs.take(j as int)),
                    self@.wf(),
            {
                proof {
                    lemma_penalized_frame(old(self)@, offs.take(j as int));
                }
                assert(offs.take(j + 1).drop_last() == offs.take(j as int));
                self.draw_cards_to_player(positions[j], 2);
            }
            assert(offs.take(offs.len() as int) == offs);
        }
        called_out_player_ids
    }

    /// With a single card in hand the call holds and is recorded; otherwise
    /// the current player takes two cards.
    pub fn perform_uno(&mut self) -> (r: bool)
        requires
            old(self)@.wf(),
            old(self)@.count() > 0,
            old(self)@.deck.len() >= old(self)@.draws_needed(TurnAction::Uno),
        ensures
            final(self)@ == old(self)@.uno_called(),
            r == (old(self)@.players[old(self)@.current_pos()].hand.len() == 1),
            final(self)@.wf(),
    {
        let cp = self.nth_turn_position(0);
        if self.players[cp].cards_count() == 1 {
            let ghost before = self.players@;
            self.players[cp].uno();
            proof {
                lemma_views_update(before, cp as int, self.players@[cp as int]);
            }
            true
        } else {
            self.draw_cards_to_player(cp, 2);
            false
        }
    }

    /// Number of opponents of the current player holding a single card.
    fn offender_count(&self) -> (r: usize)
        requires
            self@.wf(),
            self@.count() > 0,
        ensures
            r == self@.offenders().len(),
            r <= self@.count(),
    {
        let cp = self.nth_turn_position(0);
        let mut n: usize = 0;
        for i in 0..self.players.len()
            invariant
                cp == self@.current_pos(),
                n == self@.offenders_before(i as int).len(),
                n <= i,
        {
            if i != cp && self.players[i].cards_count() == 1 {
                n = n + 1;
            }
        }
        n
    }

    /// How many cards `action` takes from the pile.
    fn draws_needed(&self, action: &TurnAction) -> (r: usize)
        requires
            self@.wf(),
            self@.count() > 0,
        ensures
            r == self@.draws_needed(*action),
    {
        match action {
            TurnAction::Play(PlayAction::ColoredCard(Card::Colored(_, ColoredCard::Draw))) => 2,
            TurnAction::Play(PlayAction::ColoredCard(_)) => 0,
            TurnAction::Play(PlayAction::Wild(_)) => 0,
            TurnAction::Play(PlayAction::WildDraw(_)) => 4,
            TurnAction::Draw => 2,
            TurnAction::Callout => {
                let n = self.offender_count();
                if n == 0 {
                    2
                } else {
                    2 * n
                }
            },
            TurnAction::Uno => {
                let cp = self.nth_turn_position(0);
                if self.players[cp].cards_count() == 1 {
                    0
                } else {
                    2
                }
            },
        }
    }

    /// Plays the coloured card at `hand_card_index` of the current player's hand.
    fn play_colored_card(&mut self, cp: usize, hand_card_index: usize, card: Card) -> (r:
        TurnActionResult)
        requires
            old(self)@.wf(),
            old(self)@.count() > 0,
            cp == old(self)@.current_pos(),
            card is Colored,
            is_first_index(old(self)@.players[cp as int].hand, card, hand_card_index as int),
            old(self)@.deck.len() >= old(self)@.draws_needed(
                TurnAction::Play(PlayAction::ColoredCard(card)),
            ),
        ensures
            (final(self)@, r@) == old(self)@.played_colored(card),
            final(self)@.wf(),
    {
        let ghost hand = old(self)@.players[cp as int].hand;
        proof {
            let i = choose|i: int| is_first_index(hand, card, i);
            assert(is_first_index(hand, card, i));
            if i < hand_card_index {
                assert(hand[i] != card);
            }
            if i > hand_card_index {
                assert(hand[hand_card_index as int] != card);
            }
            assert(i == hand_card_index);
        }
        let ghost before = self.players@;
        self.players[cp].remove_card(hand_card_index);
        proof {
            lemma_views_update(before, cp as int, self.players@[cp as int]);
        }
        match card {
            Card::Colored(color, rank) => {
                self.last_played_card = rank.into_played_card(color);
                proof {
                    lemma_wf_same_ids(old(self)@, self@);
                }
                match rank {
                    ColoredCard::Skip => {
                        self.move_turn_n_players_ahead(2);
                        TurnActionResult::Skip
                    },
                    ColoredCard::Reverse => {
                        self.perform_reverse();
                        TurnActionResult::Reverse
                    },
                    ColoredCard::Draw => {
                        let next = self.nth_turn_position(1);
                        self.draw_cards_to_player(next, 2);
                        self.move_turn_n_players_ahead(1);
                        TurnActionResult::Draw
                    },
                    ColoredCard::Number(_) => {
                        self.move_turn_n_players_ahead(1);
                        TurnActionResult::Neutral
                    },
                }
            },
            _ => vstd::pervasive::unreached(),
        }
    }

    /// Resolves one action of the player at `cp`, whose turn it is.
    fn resolve_turn(&mut self, cp: usize, turn_action: TurnAction) -> (r: TurnActionResult)
        requires
            old(self)@.wf(),
            old(self)@.count() > 0,
            cp == old(self)@.current_pos(),
        ensures
            (final(self)@, r@) == old(self)@.resolved(turn_action),
            final(self)@.wf(),
            final(self)@.count() == old(self)@.count(),
    {
        proof {
            if turn_action is Callout && old(self)@.deck.len() >= old(self)@.draws_needed(
                turn_action,
            ) {
                lemma_called_out_frame(old(self)@);
            }
        }
        match turn_action {
            TurnAction::Play(PlayAction::ColoredCard(card)) => {
                if !matches!(card, Card::Colored(_, _)) {
                    return TurnActionResult::CardNotInHand;
                }
                match self.players[cp].card_index(&card) {
                    None => TurnActionResult::CardNotInHand,
                    Some(hand_card_index) => {
                        if self.deck.cards_count() < self.draws_needed(&turn_action) {
                            TurnActionResult::DeckExhausted
                        } else {
                            self.play_colored_card(cp, hand_card_index, card)
                        }
                    },
                }
            },
            _ => {
                if self.deck.cards_count() < self.draws_needed(&turn_action) {
                    TurnActionResult::DeckExhausted
                } else {
                    match turn_action {
                        TurnAction::Play(PlayAction::Wild(color)) => {
                            self.last_played_card = PlayedCard::Wild(color);
                            self.move_turn_n_players_ahead(1);
                            TurnActionResult::Wild
                        },
                        TurnAction::Play(PlayAction::WildDraw(color)) => {
                            self.last_played_card = PlayedCard::WildDraw(color);
                            let next = self.nth_turn_position(1);
                            self.draw_cards_to_player(next, 4);
                            self.move_turn_n_players_ahead(1);
                            TurnActionResult::WildDraw
                        },
                        TurnAction::Draw => {
                            self.draw_cards_to_player(cp, 2);
                            TurnActionResult::SelfDraw
                        },
                        TurnAction::Callout => {
                            let called_out_player_ids = self.perform_callout();
                            if called_out_player_ids.len() == 0 {
                                TurnActionResult::CalloutFailed
                            } else {
                                TurnActionResult::CalledOut(called_out_player_ids)
                            }
                        },
                        TurnAction::Uno => {
                            if self.perform_uno() {
                                TurnActionResult::UnoSuccessful
                            } else {
                                TurnActionResult::UnoFailed
                            }
                        },
                        TurnAction::Play(PlayAction::ColoredCard(_)) => vstd::pervasive::unreached(),
                    }
                }
            },
        }
    }

    /// Moves the player at `cp` to the end of the winners when their hand is
    /// empty.
    fn settle_winner(&mut self, cp: usize) -> (won: bool)
        requires
            old(self)@.wf(),
            cp < old(self)@.count(),
        ensures
            (final(self)@, won) == old(self)@.settled(cp as int),
            final(self)@.wf(),
    {
        let won = self.players[cp].cards_count() == 0;
        if won {
            let winner = self.players.remove(cp);
            self.winners.push(winner);
            assert(self.players@.map_values(|p: Player| p@) =~= old(self)@.players.remove(
                cp as int,
            ));
            assert(self.winners@.map_values(|p: Player| p@) =~= old(self)@.winners.push(
                old(self)@.players[cp as int],
            ));
            let len = self.players.len();
            self.current_turn_player_id_index = if len == 0 {
                0
            } else {
                self.current_turn_player_id_index % len
            };
            assert forall|i: int, j: int| 0 <= i < j < self@.count() implies #[trigger] self@.players[i].id
                < #[trigger] self@.players[j].id by {
                let i0 = if i < cp { i } else { i + 1 };
                let j0 = if j < cp { j } else { j + 1 };
                assert(self@.players[i] == old(self)@.players[i0]);
                assert(self@.players[j] == old(self)@.players[j0]);
            }
        }
        won
    }

    /// Resolves one action of the player whose turn it is, then moves that
    /// player to the winners if their hand is empty.
    ///
    /// The action is either refused with nothing changed (a card that is not
    /// in the hand, or a pile too short for the cards the action hands out)
    /// or carried out in full; a refused action wins nothing. A coloured-card
    /// play that names a wild card is refused as not in the hand. Wild and
    /// wild-draw plays are taken as the caller states them: the hand is
    /// neither searched nor changed for them.
    pub fn play_turn(&mut self, turn_action: TurnAction) -> (r: PlayTurnResult)
        requires
            old(self)@.wf(),
            old(self)@.count() > 0,
        ensures
            final(self)@ == old(self)@.step(turn_action).0,
            r.turn_action_result@ == old(self)@.step(turn_action).1,
            r.won == old(self)@.step(turn_action).2,
            final(self)@.wf(),
    {
        let cp = self.nth_turn_position(0);
        let turn_action_result = self.resolve_turn(cp, turn_action);
        let won = if matches!(
            turn_action_result,
            TurnActionResult::CardNotInHand | TurnActionResult::DeckExhausted
        ) {
            false
        } else {
            self.settle_winner(cp)
        };
        PlayTurnResult { turn_action_result, won }
    }

    /// Flips the direction; the turn stays with the same player.
    pub fn perform_reverse(&mut self)
        requires
            old(self)@.wf(),
            old(self)@.count() > 0,
        ensures
            final(self)@ == old(self)@.reversed_direction(),
            final(self)@.wf(),
    {
        self.player_order_reversed = !self.player_order_reversed;
        self.current_turn_player_id_index = self.players.len() - 1
            - self.current_turn_player_id_index;
    }
}

} // verus!
