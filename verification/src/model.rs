use vstd::prelude::*;

verus! {

use vstd::multiset::Multiset;

/// Frames per second the front end paces its loop at.
pub const FPS: i32 = 30;

/// Outcome of a round. `Undecided` means the round is still running.
#[derive(Debug, Clone, Copy, Eq, PartialEq, Structural)]
pub enum GameResult {
    Undecided,
    Bust,
    Win,
    Lose,
    Push,
}

/// A player action for one frame.
#[derive(Debug, Clone, Copy, Eq, PartialEq, Structural)]
pub enum Command {
    Idle,
    Hit,
    Stand,
}

/// One playing card, identified by an integer in `1 ..= 52`
/// (1-based because the card sprites are numbered from 1).
pub struct Card {
    pub id: i32,
}

impl Card {
    /// The id range every card in play satisfies.
    pub open spec fn valid(self) -> bool {
        1 <= self.id <= 52
    }

    pub fn new(id: i32) -> (card: Card)
        requires
            1 <= id <= 52,
        ensures
            card.id == id,
            card.valid(),
    {
        Card { id }
    }

    /// The card's rank: 1 is an ace, 2 to 10 are number cards,
    /// and 11, 12, 0 are jack, queen, king.
    pub fn number(&self) -> (number: i32)
        requires
            self.valid(),
        ensures
            number == self.id as int % 13,
            0 <= number <= 12,
    {
        self.id % 13
    }

    /// The card's suit, `0 ..= 3`.
    pub fn mark(&self) -> (mark: i32)
        requires
            self.valid(),
        ensures
            mark == (self.id - 1) as int / 13,
            0 <= mark <= 3,
    {
        (self.id - 1) / 13
    }
}

/// The points one card adds to a hand: an ace counts 11, a face card
/// (jack, queen, king) counts 10, a number card counts its number.
pub open spec fn card_point(card: Card) -> int {
    let number = card.id as int % 13;
    if number == 1 {
        11
    } else if 2 <= number <= 10 {
        number
    } else {
        10
    }
}

/// The total point value of a hand.
pub open spec fn hand_point(cards: Seq<Card>) -> int
    decreases cards.len(),
{
    if cards.len() == 0 {
        0
    } else {
        hand_point(cards.drop_last()) + card_point(cards.last())
    }
}

/// Every card of the sequence is a real card of the deck.
pub open spec fn cards_valid(cards: Seq<Card>) -> bool {
    forall|i: int| 0 <= i < cards.len() ==> (#[trigger] cards[i]).valid()
}

/// Each card is worth at least 2 and at most 11 points, so a hand's
/// total is bounded by its size.
pub proof fn lemma_hand_point_bounds(cards: Seq<Card>)
    ensures
        2 * cards.len() <= hand_point(cards) <= 11 * cards.len(),
    decreases cards.len(),
{
    if cards.len() > 0 {
        lemma_hand_point_bounds(cards.drop_last());
    }
}

/// The ids of a sequence of cards, in order.
pub open spec fn ids_of(cards: Seq<Card>) -> Seq<i32> {
    cards.map_values(|card: Card| card.id)
}

/// The ids of a complete 52-card deck, each id exactly once.
pub open spec fn full_deck_ids() -> Multiset<i32> {
    Seq::new(52, |i: int| (i + 1) as i32).to_multiset()
}

/// A full deck holds each of the 52 card ids exactly once and nothing
/// else, so a deal whose cards form `full_deck_ids()` repeats no card.
pub proof fn lemma_full_deck_each_id_once(id: i32)
    ensures
        full_deck_ids().count(id) == if 1 <= id <= 52 {
            1int
        } else {
            0int
        },
{
    broadcast use vstd::seq_lib::group_to_multiset_ensures;

    let base = Seq::new(52, |i: int| (i + 1) as i32);
    if 1 <= id <= 52 {
        assert(base.no_duplicates());
        assert(base[id - 1] == id);
        assert(base.contains(id));
        base.lemma_multiset_has_no_duplicates();
        assert(base.to_multiset().contains(id));
    } else {
        assert(!base.contains(id));
    }
}

/// How standing resolves a round: the hands and the deck stay as they
/// are, the round is over, and the higher point total wins; equal
/// totals push. A win or a loss bumps the matching counter and queues
/// the matching sound.
pub open spec fn stand_step(pre: Game, post: Game) -> bool {
    let player_point = hand_point(pre.player_cards@);
    let dealer_point = hand_point(pre.dealer_cards@);
    &&& post.is_over
    &&& post.player_cards@ == pre.player_cards@
    &&& post.dealer_cards@ == pre.dealer_cards@
    &&& post.deck@ == pre.deck@
    &&& post.rng == pre.rng
    &&& if player_point > dealer_point {
        &&& post.result == GameResult::Win
        &&& post.win_count == pre.win_count + 1
        &&& post.lose_count == pre.lose_count
        &&& post.requested_sounds@ == pre.requested_sounds@.push("clear.wav")
    } else if player_point < dealer_point {
        &&& post.result == GameResult::Lose
        &&& post.win_count == pre.win_count
        &&& post.lose_count == pre.lose_count + 1
        &&& post.requested_sounds@ == pre.requested_sounds@.push("crash.wav")
    } else {
        &&& post.result == GameResult::Push
        &&& post.win_count == pre.win_count
        &&& post.lose_count == pre.lose_count
        &&& post.requested_sounds@ == pre.requested_sounds@
    }
}

/// How hitting changes a round: the player draws the top card of the
/// deck; going over 21 points busts the round, counts as a loss, and
/// queues the crash sound, otherwise nothing else changes.
pub open spec fn hit_step(pre: Game, post: Game) -> bool {
    let drawn = pre.deck@.last();
    let player_after = pre.player_cards@.push(drawn);
    &&& post.deck@ == pre.deck@.drop_last()
    &&& post.player_cards@ == player_after
    &&& post.dealer_cards@ == pre.dealer_cards@
    &&& post.rng == pre.rng
    &&& if hand_point(player_after) > 21 {
        &&& post.is_over
        &&& post.result == GameResult::Bust
        &&& post.win_count == pre.win_count
        &&& post.lose_count == pre.lose_count + 1
        &&& post.requested_sounds@ == pre.requested_sounds@.push("crash.wav")
    } else {
        &&& post.is_over == pre.is_over
        &&& post.result == pre.result
        &&& post.win_count == pre.win_count
        &&& post.lose_count == pre.lose_count
        &&& post.requested_sounds@ == pre.requested_sounds@
    }
}

/// The whole state of one blackjack session: the dealer's and the
/// player's hands, the remaining deck, the running score, and the
/// generator the deck is shuffled with.
pub struct Game {
    pub rng: rand::rngs::StdRng,
    pub is_over: bool,
    pub result: GameResult,
    pub player_cards: Vec<Card>,
    pub dealer_cards: Vec<Card>,
    pub deck: Vec<Card>,
    pub win_count: i32,
    pub lose_count: i32,
    pub requested_sounds: Vec<&'static str>,
}

impl Game {
    /// Every card held anywhere in the game is a real card.
    pub open spec fn wf(self) -> bool {
        &&& cards_valid(self.deck@)
        &&& cards_valid(self.player_cards@)
        &&& cards_valid(self.dealer_cards@)
    }

    /// A fresh game: no cards dealt, no round decided, score zero. The
    /// seed fixes how later deals will be shuffled.
    pub fn new(seed: u64) -> (game: Game)
        ensures
            !game.is_over,
            game.result == GameResult::Undecided,
            game.player_cards@.len() == 0,
            game.dealer_cards@.len() == 0,
            game.deck@.len() == 0,
            game.win_count == 0,
            game.lose_count == 0,
            game.requested_sounds@.len() == 0,
            game.wf(),
    {
        Game {
            rng: crate::rng::rng_from_seed(seed),
            is_over: false,
            result: GameResult::Undecided,
            player_cards: Vec::new(),
            dealer_cards: Vec::new(),
            deck: Vec::new(),
            win_count: 0,
            lose_count: 0,
            requested_sounds: Vec::new(),
        }
    }

    /// Deal a fresh round: shuffle a complete 52-card deck onto the
    /// draw pile, then deal one card to the dealer and two to the
    /// player from its top. The cards added across the three piles are
    /// exactly the 52 cards of a full deck, in an order the generator
    /// picks; everything else is left alone.
    #[verifier::loop_isolation(false)]
    pub fn init(&mut self)
        ensures
            final(self).is_over == old(self).is_over,
            final(self).result == old(self).result,
            final(self).win_count == old(self).win_count,
            final(self).lose_count == old(self).lose_count,
            final(self).requested_sounds@ == old(self).requested_sounds@,
            final(self).deck@.len() == old(self).deck@.len() + 49,
            final(self).dealer_cards@.len() == old(self).dealer_cards@.len() + 1,
            final(self).player_cards@.len() == old(self).player_cards@.len() + 2,
            final(self).deck@.take(old(self).deck@.len() as int) == old(self).deck@,
            final(self).dealer_cards@.take(old(self).dealer_cards@.len() as int)
                == old(self).dealer_cards@,
            final(self).player_cards@.take(old(self).player_cards@.len() as int)
                == old(self).player_cards@,
            ids_of(
                final(self).deck@.skip(old(self).deck@.len() as int)
                    + final(self).dealer_cards@.skip(old(self).dealer_cards@.len() as int)
                    + final(self).player_cards@.skip(old(self).player_cards@.len() as int),
            ).to_multiset() == full_deck_ids(),
            cards_valid(final(self).deck@.skip(old(self).deck@.len() as int)),
            cards_valid(final(self).dealer_cards@.skip(old(self).dealer_cards@.len() as int)),
            cards_valid(final(self).player_cards@.skip(old(self).player_cards@.len() as int)),
            old(self).wf() ==> final(self).wf(),
    {
        let mut ids: Vec<i32> = Vec::new();
        let mut k: i32 = 1;
        while k <= 52
            invariant
                1 <= k <= 53,
                ids@.len() == k - 1,
                forall|j: int| 0 <= j < ids@.len() ==> ids@[j] == j + 1,
            decreases 53 - k,
        {
            ids.push(k);
            k += 1;
        }
        proof {
            assert(ids@ =~= Seq::new(52, |i: int| (i + 1) as i32));
        }

        crate::rng::shuffle_ids(&mut self.rng, &mut ids);
        let ghost shuffled = ids@;
        proof {
            broadcast use vstd::seq_lib::group_to_multiset_ensures;

            assert(shuffled.to_multiset() == full_deck_ids());
            let base = Seq::new(52, |i: int| (i + 1) as i32);
            assert forall|j: int| 0 <= j < shuffled.len() implies 1 <= #[trigger] shuffled[j]
                <= 52 by {
                assert(shuffled.contains(shuffled[j]));
                assert(base.to_multiset().count(shuffled[j]) > 0);
                assert(base.contains(shuffled[j]));
                let w = choose|w: int| 0 <= w < base.len() && base[w] == shuffled[j];
                assert(base[w] == w + 1);
            }
        }

        let ghost deck0 = self.deck@;
        let ghost n0 = deck0.len() as int;
        let mut i: usize = 0;
        while i < ids.len()
            invariant
                i <= 52,
                ids@ == shuffled,
                self.deck@.len() == deck0.len() + i,
                self.deck@.take(n0) == deck0,
                ids_of(self.deck@.skip(n0)) == shuffled.take(i as int),
                cards_valid(self.deck@.skip(n0)),
                self.player_cards@ == old(self).player_cards@,
                self.dealer_cards@ == old(self).dealer_cards@,
                self.is_over == old(self).is_over,
                self.result == old(self).result,
                self.win_count == old(self).win_count,
                self.lose_count == old(self).lose_count,
                self.requested_sounds@ == old(self).requested_sounds@,
            decreases 52 - i,
        {
            let ghost deck_before = self.deck@;
            let card = Card::new(ids[i]);
            self.deck.push(card);
            proof {
                assert(self.deck@.take(n0) =~= deck0);
                assert(self.deck@.skip(n0) =~= deck_before.skip(n0).push(card));
                assert(ids_of(self.deck@.skip(n0)) =~= shuffled.take(i as int + 1));
                let suffix = self.deck@.skip(n0);
                assert forall|j: int| 0 <= j < suffix.len() implies (#[trigger] suffix[j]).valid() by {
                    if j < suffix.len() - 1 {
                        assert(deck_before.skip(n0)[j].valid());
                    }
                }
            }
            i += 1;
        }
        proof {
            assert(shuffled.take(52) =~= shuffled);
        }

        let ghost deck_full = self.deck@;
        let card = self.deck.pop().unwrap();
        self.dealer_cards.push(card);
        let card = self.deck.pop().unwrap();
        self.player_cards.push(card);
        let card = self.deck.pop().unwrap();
        self.player_cards.push(card);

        proof {
            broadcast use vstd::seq_lib::group_to_multiset_ensures;

            let nd = old(self).dealer_cards@.len() as int;
            let np = old(self).player_cards@.len() as int;
            assert(self.deck@ =~= deck_full.take(n0 + 49));
            assert(self.deck@.take(n0) =~= deck0);
            assert(self.dealer_cards@.take(nd) =~= old(self).dealer_cards@);
            assert(self.player_cards@.take(np) =~= old(self).player_cards@);

            let deck_suffix = self.deck@.skip(n0);
            let dealt = self.dealer_cards@.skip(nd) + self.player_cards@.skip(np);
            assert(deck_suffix =~= deck_full.skip(n0).take(49));
            assert(self.dealer_cards@.skip(nd) =~= seq![deck_full[n0 + 51]]);
            assert(self.player_cards@.skip(np) =~= seq![deck_full[n0 + 50], deck_full[n0 + 49]]);

            // Each dealt card is a card of the shuffled deck, hence valid.
            assert(cards_valid(deck_full.skip(n0)));
            assert forall|j: int| 0 <= j < deck_suffix.len() implies (
            #[trigger] deck_suffix[j]).valid() by {
                assert(deck_full.skip(n0)[j].valid());
            }
            assert(deck_full[n0 + 51].valid() && deck_full[n0 + 50].valid() && deck_full[n0
                + 49].valid()) by {
                assert(deck_full.skip(n0)[51].valid());
                assert(deck_full.skip(n0)[50].valid());
                assert(deck_full.skip(n0)[49].valid());
            }

            // The ids dealt out are a permutation of the shuffled ids.
            let head = shuffled.take(49);
            let t1 = seq![shuffled[51], shuffled[50], shuffled[49]];
            let t2 = seq![shuffled[49], shuffled[50], shuffled[51]];
            assert(ids_of(deck_suffix + dealt) =~= head + t1);
            assert(deck_suffix + self.dealer_cards@.skip(nd) + self.player_cards@.skip(np)
                =~= deck_suffix + dealt);
            assert(shuffled =~= head + t2);
            assert(t1 =~= Seq::empty().push(shuffled[51]).push(shuffled[50]).push(shuffled[49]));
            assert(t2 =~= Seq::empty().push(shuffled[49]).push(shuffled[50]).push(shuffled[51]));
            assert(t1.to_multiset() =~= t2.to_multiset());
            vstd::seq_lib::lemma_multiset_commutative(head, t1);
            vstd::seq_lib::lemma_multiset_commutative(head, t2);
            assert((head + t1).to_multiset() =~= shuffled.to_multiset());

            // Well-formedness carries over when the old piles were valid.
            if old(self).wf() {
                assert forall|j: int| 0 <= j < self.deck@.len() implies (
                #[trigger] self.deck@[j]).valid() by {
                    if j < n0 {
                        assert(deck0[j].valid());
                    } else {
                        assert(deck_suffix[j - n0].valid());
                    }
                }
                assert forall|j: int| 0 <= j < self.dealer_cards@.len() implies (
                #[trigger] self.dealer_cards@[j]).valid() by {
                    if j < nd {
                        assert(old(self).dealer_cards@[j].valid());
                    }
                }
                assert forall|j: int| 0 <= j < self.player_cards@.len() implies (
                #[trigger] self.player_cards@[j]).valid() by {
                    if j < np {
                        assert(old(self).player_cards@[j].valid());
                    }
                }
            }
        }
    }

    /// The point total of a hand, summed card by card.
    pub fn calc_point(&self, cards: &Vec<Card>) -> (point: i32)
        requires
            cards_valid(cards@),
            11 * cards@.len() <= i32::MAX,
        ensures
            point == hand_point(cards@),
    {
        let mut point: i32 = 0;
        let mut i: usize = 0;
        while i < cards.len()
            invariant
                i <= cards@.len(),
                cards_valid(cards@),
                11 * cards@.len() <= i32::MAX,
                point == hand_point(cards@.take(i as int)),
            decreases cards@.len() - i,
        {
            proof {
                lemma_hand_point_bounds(cards@.take(i as int));
            }
            let number = cards[i].number();
            if number == 1 {
                point += 11;
            } else if 2 <= number && number <= 10 {
                point += number;
            } else {
                point += 10;
            }
            proof {
                assert(cards@.take(i as int + 1).drop_last() =~= cards@.take(i as int));
                assert(cards@.take(i as int + 1).last() == cards@[i as int]);
            }
            i += 1;
        }
        proof {
            assert(cards@.take(cards@.len() as int) =~= cards@);
        }
        point
    }

    /// Compare the two hands and close the round: the higher total
    /// wins, equal totals push.
    pub fn decide_result(&mut self)
        requires
            old(self).wf(),
            11 * old(self).player_cards@.len() <= i32::MAX,
            11 * old(self).dealer_cards@.len() <= i32::MAX,
            hand_point(old(self).player_cards@) > hand_point(old(self).dealer_cards@)
                ==> old(self).win_count < i32::MAX,
            hand_point(old(self).player_cards@) < hand_point(old(self).dealer_cards@)
                ==> old(self).lose_count < i32::MAX,
        ensures
            stand_step(*old(self), *final(self)),
            final(self).wf(),
    {
        let player_point = self.calc_point(&self.player_cards);
        let dealer_point = self.calc_point(&self.dealer_cards);
        if player_point > dealer_point {
            self.result = GameResult::Win;
            self.win_count += 1;
            self.requested_sounds.push("clear.wav");
        } else if player_point < dealer_point {
            self.result = GameResult::Lose;
            self.lose_count += 1;
            self.requested_sounds.push("crash.wav");
        } else {
            self.result = GameResult::Push;
        }
        self.is_over = true;
    }

    /// Stand: keep the hand as it is and let the dealer comparison
    /// settle the round.
    pub fn stand(&mut self)
        requires
            old(self).wf(),
            11 * old(self).player_cards@.len() <= i32::MAX,
            11 * old(self).dealer_cards@.len() <= i32::MAX,
            hand_point(old(self).player_cards@) > hand_point(old(self).dealer_cards@)
                ==> old(self).win_count < i32::MAX,
            hand_point(old(self).player_cards@) < hand_point(old(self).dealer_cards@)
                ==> old(self).lose_count < i32::MAX,
        ensures
            stand_step(*old(self), *final(self)),
            final(self).wf(),
    {
        self.decide_result();
    }

    /// Hit: draw the top card of the deck into the player's hand, and
    /// bust the round if that takes the hand over 21 points.
    pub fn hit(&mut self)
        requires
            old(self).wf(),
            old(self).deck@.len() > 0,
            11 * (old(self).player_cards@.len() + 1) <= i32::MAX,
            hand_point(old(self).player_cards@.push(old(self).deck@.last())) > 21
                ==> old(self).lose_count < i32::MAX,
        ensures
            hit_step(*old(self), *final(self)),
            final(self).wf(),
    {
        let card = self.deck.pop().unwrap();
        self.player_cards.push(card);
        proof {
            assert(self.deck@ =~= old(self).deck@.drop_last());
            let hand = self.player_cards@;
            assert forall|i: int| 0 <= i < hand.len() implies (#[trigger] hand[i]).valid() by {
                if i < hand.len() - 1 {
                    assert(old(self).player_cards@[i].valid());
                } else {
                    assert(old(self).deck@[old(self).deck@.len() - 1].valid());
                }
            }
        }
        if self.calc_point(&self.player_cards) > 21 {
            self.is_over = true;
            self.lose_count += 1;
            self.result = GameResult::Bust;
            self.requested_sounds.push("crash.wav");
        }
    }

    /// One frame's worth of game logic: apply the player's command,
    /// unless the round is already over, in which case nothing changes.
    pub fn update(&mut self, command: Command)
        requires
            old(self).wf(),
            !old(self).is_over && command == Command::Hit ==> (
                old(self).deck@.len() > 0
                && 11 * (old(self).player_cards@.len() + 1) <= i32::MAX
                && (hand_point(old(self).player_cards@.push(old(self).deck@.last())) > 21
                    ==> old(self).lose_count < i32::MAX)
            ),
            !old(self).is_over && command == Command::Stand ==> (
                11 * old(self).player_cards@.len() <= i32::MAX
                && 11 * old(self).dealer_cards@.len() <= i32::MAX
                && (hand_point(old(self).player_cards@) > hand_point(old(self).dealer_cards@)
                    ==> old(self).win_count < i32::MAX)
                && (hand_point(old(self).player_cards@) < hand_point(old(self).dealer_cards@)
                    ==> old(self).lose_count < i32::MAX)
            ),
        ensures
            old(self).is_over ==> *final(self) == *old(self),
            !old(self).is_over && command == Command::Hit ==> hit_step(*old(self), *final(self)),
            !old(self).is_over && command == Command::Stand ==> stand_step(*old(self), *final(self)),
            !old(self).is_over && command == Command::Idle ==> *final(self) == *old(self),
            final(self).wf(),
    {
        if self.is_over {
            return;
        }

        match command {
            Command::Hit => {
                self.hit();
            }
            Command::Stand => {
                self.stand();
            }
            Command::Idle => {}
        }
    }
}

} // verus!
