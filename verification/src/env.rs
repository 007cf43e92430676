//! The Easy21 card-game environment.
//!
//! A `State` holds the dealer's and the player's running totals.  `Hit`
//! draws one signed card for the player; `Stick` lets the dealer play a
//! fixed policy (draw while below 17).  Cards carry a value in `1..=10`
//! and a colour: Black adds, Red subtracts; a draw is Black with
//! probability 2/3 and Red with probability 1/3, the value uniform.
//!
//! Randomness enters only through `random_below`; every transition is
//! otherwise a function of the cards it consumes, so the deterministic
//! core (`hit_card`, `stick_walk`) carries exact contracts and the
//! sampling wrappers (`step`, `episode`) state what holds of every
//! possible draw.

use vstd::prelude::*;

verus! {

/// A card's colour: Black adds its value to a total, Red subtracts it.
#[derive(Clone, Copy, PartialEq, Eq, Structural, Debug)]
pub enum CardColor {
    Black,
    Red,
}

/// A playing card: value in `1..=10`, signed by its colour.
#[derive(Clone, Copy, PartialEq, Eq, Structural, Debug)]
pub struct Card {
    pub value: i32,
    pub color: CardColor,
}

/// The signed amount the card adds to a total.
pub open spec fn card_delta(c: Card) -> int {
    match c.color {
        CardColor::Black => c.value as int,
        CardColor::Red => -(c.value as int),
    }
}

impl Card {
    /// A legal card value.
    pub open spec fn wf(&self) -> bool {
        1 <= self.value <= 10
    }

    /// Add the card's signed value to a running total.
    pub fn add_to(&self, x: i32) -> (r: i32)
        requires
            self.wf(),
            i32::MIN + 10 <= x <= i32::MAX - 10,
        ensures
            r == x + card_delta(*self),
    {
        match self.color {
            CardColor::Black => x + self.value,
            CardColor::Red => x - self.value,
        }
    }

    /// Draw one card: value uniform in `1..=10`, Black with
    /// probability 2/3.
    pub fn draw() -> (r: Card)
        ensures
            r.wf(),
    {
        let v = random_below(10);
        let c = random_below(3);
        Card {
            value: (v + 1) as i32,
            color: if c == 0 {
                CardColor::Red
            } else {
                CardColor::Black
            },
        }
    }
}

/// Relies on rand: `Rng::gen_range(0..n)` on the thread-local generator
/// returns an integer uniform in `[0, n)`.
#[verifier::external_body]
pub(crate) fn random_below(n: u64) -> (r: u64)
    requires
        1 <= n,
    ensures
        r < n,
{
    rand::Rng::gen_range(&mut rand::thread_rng(), 0..n)
}

/// The dealer's and the player's running totals.
#[derive(Clone, Copy, PartialEq, Eq, Structural, Hash, Debug)]
pub struct State {
    pub dealer: i32,
    pub player: i32,
}

impl State {
    /// A state in which the game is still being played: both totals came
    /// from the rules, neither side has acted out of turn.
    pub open spec fn playable(&self) -> bool {
        &&& 1 <= self.player <= 21
        &&& 1 <= self.dealer <= 21
    }

    /// A fresh game: one card's value dealt to each side (colour
    /// ignored for the opening deal).
    pub fn init() -> (r: State)
        ensures
            r.playable(),
            1 <= r.dealer <= 10,
            1 <= r.player <= 10,
    {
        State { dealer: Card::draw().value, player: Card::draw().value }
    }
}

/// The player's two moves.
#[derive(Clone, Copy, PartialEq, Eq, Structural, Hash, Debug)]
pub enum Action {
    /// Draw another card from the deck. Then decide again.
    Hit,
    /// No further cards. Dealer will take turns.
    Stick,
}

/// The outcome of one transition.
#[derive(Clone, Copy, PartialEq, Eq, Structural, Debug)]
pub struct Sample {
    pub state: State,
    pub reward: i32,
    pub terminal: bool,
}

/// A total out of `1..=21` has gone bust.
pub open spec fn bust(x: int) -> bool {
    x < 1 || x > 21
}

/// Whether a total is bust: exactly when it leaves `1..=21`.
pub fn is_bust(x: i32) -> (r: bool)
    ensures
        r == bust(x as int),
{
    x < 1 || x > 21
}

/// The sign of `x` in `{-1, 0, 1}`.
pub open spec fn sgn(x: int) -> int {
    if x > 0 {
        1
    } else if x < 0 {
        -1
    } else {
        0
    }
}

fn signum(x: i32) -> (r: i32)
    ensures
        r == sgn(x as int),
{
    if x > 0 {
        1
    } else if x < 0 {
        -1
    } else {
        0
    }
}

/// A finite sequence of pre-drawn cards, consumed front to back.  Every
/// transition is a pure function of the cards it takes from here, so a
/// deck of chosen cards replays a game deterministically.
pub struct Deck {
    pub cards: Vec<Card>,
    pub next: usize,
}

impl Deck {
    /// The cards not yet consumed, in draw order.
    pub open spec fn remaining(&self) -> Seq<Card> {
        self.cards@.subrange(self.next as int, self.cards@.len() as int)
    }

    pub open spec fn wf(&self) -> bool {
        &&& self.next <= self.cards@.len()
        &&& forall|i: int| 0 <= i < self.cards@.len() ==> (#[trigger] self.cards@[i]).wf()
    }

    /// A deck of the given cards, to be drawn first to last.
    pub fn from_cards(cards: Vec<Card>) -> (r: Deck)
        requires
            forall|i: int| 0 <= i < cards@.len() ==> (#[trigger] cards@[i]).wf(),
        ensures
            r.wf(),
            r.remaining() == cards@,
    {
        let r = Deck { cards, next: 0 };
        proof {
            assert(r.remaining() =~= r.cards@);
        }
        r
    }

    /// A deck of `n` randomly drawn cards.
    pub fn fresh(n: usize) -> (r: Deck)
        ensures
            r.wf(),
            r.remaining().len() == n,
    {
        let mut cards: Vec<Card> = Vec::new();
        let mut i: usize = 0;
        while i < n
            invariant
                i <= n,
                cards@.len() == i,
                forall|j: int| 0 <= j < cards@.len() ==> (#[trigger] cards@[j]).wf(),
            decreases n - i,
        {
            cards.push(Card::draw());
            i = i + 1;
        }
        Deck::from_cards(cards)
    }

    /// How many cards are left.
    pub fn remaining_len(&self) -> (r: usize)
        requires
            self.wf(),
        ensures
            r == self.remaining().len(),
    {
        self.cards.len() - self.next
    }

    /// Take the next card.
    pub fn take(&mut self) -> (r: Card)
        requires
            old(self).wf(),
            old(self).remaining().len() > 0,
        ensures
            final(self).wf(),
            r == old(self).remaining()[0],
            r.wf(),
            final(self).remaining() == old(self).remaining().drop_first(),
    {
        let c = self.cards[self.next];
        let len = self.cards.len();
        proof {
            assert(old(self).remaining().len() == len - self.next);
        }
        self.next = self.next + 1;
        proof {
            assert(self.remaining() =~= old(self).remaining().drop_first());
        }
        c
    }
}

/// The result of a `Hit` from `s` drawing `c`: the card's signed value
/// joins the player's total; leaving `1..=21` ends the game at -1.
pub open spec fn hit_post(s: State, c: Card, r: Sample) -> bool {
    &&& r.state.dealer == s.dealer
    &&& r.state.player == s.player + card_delta(c)
    &&& r.terminal == bust(r.state.player as int)
    &&& r.reward == if bust(r.state.player as int) { -1int } else { 0int }
}

/// Apply a `Hit` with a known card.
pub fn hit_card(state: State, card: Card) -> (r: Sample)
    requires
        state.playable(),
        card.wf(),
    ensures
        hit_post(state, card, r),
{
    let player = card.add_to(state.player);
    Sample {
        state: State { player, dealer: state.dealer },
        reward: if is_bust(player) { -1 } else { 0 },
        terminal: is_bust(player),
    }
}

/// The dealer's fixed playout over a card sequence: while the total is
/// below 17, draw; going bust rewards the player +1, sticking rewards
/// the sign of `player - dealer`.  `None` when the cards run out first.
/// On `Some((d, rew, used))`: `d` is the dealer's final total, `rew`
/// the player's reward, `used` how many cards were consumed.
pub open spec fn stick_res(player: int, dealer: int, cards: Seq<Card>) -> Option<(int, int, int)>
    decreases cards.len(),
{
    if dealer >= 17 {
        Some((dealer, sgn(player - dealer), 0))
    } else if cards.len() == 0 {
        None
    } else {
        let d2 = dealer + card_delta(cards[0]);
        if bust(d2) {
            Some((d2, 1, 1))
        } else {
            match stick_res(player, d2, cards.drop_first()) {
                Some((d, rew, used)) => Some((d, rew, used + 1)),
                None => None,
            }
        }
    }
}

/// The same playout outcome with `k` more cards counted as used.
pub open spec fn used_shift(a: Option<(int, int, int)>, k: int) -> Option<(int, int, int)> {
    match a {
        Some((d, rew, used)) => Some((d, rew, used + k)),
        None => None,
    }
}

/// The dealer's playout, drawing from the deck.  `None` exactly when
/// the deck runs out before the dealer finishes; the outcome and the
/// cards consumed match `stick_res` on the deck's remaining cards.
pub fn stick_walk(state: State, deck: &mut Deck) -> (r: Option<Sample>)
    requires
        state.playable(),
        old(deck).wf(),
    ensures
        final(deck).wf(),
        r is None <==> stick_res(state.player as int, state.dealer as int, old(deck).remaining()) is None,
        r is None ==> final(deck).remaining().len() == 0,
        r matches Some(s) ==> {
            let res = stick_res(state.player as int, state.dealer as int, old(deck).remaining());
            &&& res matches Some((d, rew, used)) ==> {
                &&& s.state.dealer == d
                &&& s.state.player == state.player
                &&& s.reward == rew
                &&& s.terminal
                &&& final(deck).remaining() == old(deck).remaining().skip(used)
            }
        },
{
    let ghost cards0 = old(deck).remaining();
    let ghost player0 = state.player as int;
    let mut dealer: i32 = state.dealer;

    if dealer >= 17 {
        proof {
            assert(deck.remaining() =~= cards0.skip(0));
        }
        return Some(Sample {
            state: State { dealer, player: state.player },
            reward: signum(state.player - dealer),
            terminal: true,
        });
    }

    loop
        invariant
            deck.wf(),
            state.playable(),
            1 <= dealer <= 16,
            player0 == state.player as int,
            cards0 == old(deck).remaining(),
            deck.remaining().len() <= cards0.len(),
            deck.remaining() == cards0.skip(cards0.len() - deck.remaining().len()),
            stick_res(player0, state.dealer as int, cards0) == used_shift(
                stick_res(player0, dealer as int, deck.remaining()),
                cards0.len() - deck.remaining().len(),
            ),
        decreases deck.remaining().len(),
    {
        let ghost rem_before = deck.remaining();
        let ghost consumed = cards0.len() - rem_before.len();
        if deck.remaining_len() == 0 {
            proof {
                // the deck is exhausted with the dealer still below 17
                assert(stick_res(player0, dealer as int, deck.remaining()) is None);
            }
            return None;
        }
        let card = deck.take();
        let d2 = card.add_to(dealer);
        proof {
            assert(stick_res(player0, dealer as int, rem_before) == (if bust(d2 as int) {
                Some((d2 as int, 1int, 1int))
            } else {
                used_shift(stick_res(player0, d2 as int, rem_before.drop_first()), 1)
            }));
            assert(deck.remaining() =~= cards0.skip(cards0.len() - deck.remaining().len()));
        }
        if is_bust(d2) {
            return Some(Sample {
                state: State { dealer: d2, player: state.player },
                reward: 1,
                terminal: true,
            });
        }
        if d2 >= 17 {
            return Some(Sample {
                state: State { dealer: d2, player: state.player },
                reward: signum(state.player - d2),
                terminal: true,
            });
        }
        dealer = d2;
    }
}

/// What a completed `Stick` outcome looks like: the fields of `s` match
/// the playout over `cards`, and `rem_after` is what the playout left.
pub open spec fn stick_post(state: State, cards: Seq<Card>, s: Sample, rem_after: Seq<Card>) -> bool {
    stick_res(state.player as int, state.dealer as int, cards) matches Some((d, rew, used)) && {
        &&& s.state.dealer == d
        &&& s.state.player == state.player
        &&& s.reward == rew
        &&& s.terminal
        &&& rem_after == cards.skip(used)
    }
}

/// One environment transition, consuming cards from the given deck.
/// Deterministic: replaying the same deck replays the same outcome.
/// `None` exactly when the deck runs out first.
pub fn step_drawn(state: State, action: Action, deck: &mut Deck) -> (r: Option<Sample>)
    requires
        state.playable(),
        old(deck).wf(),
    ensures
        final(deck).wf(),
        action == Action::Hit ==> {
            &&& r is None <==> old(deck).remaining().len() == 0
            &&& r matches Some(s) ==> hit_post(state, old(deck).remaining()[0], s)
                && final(deck).remaining() == old(deck).remaining().drop_first()
        },
        action == Action::Stick ==> {
            &&& r is None <==> stick_res(state.player as int, state.dealer as int, old(deck).remaining()) is None
            &&& r matches Some(s) ==> stick_post(state, old(deck).remaining(), s, final(deck).remaining())
        },
{
    match action {
        Action::Hit => {
            if deck.remaining_len() == 0 {
                None
            } else {
                let card = deck.take();
                Some(hit_card(state, card))
            }
        },
        Action::Stick => stick_walk(state, deck),
    }
}

/// A transition of `state` under `action` explained by the card
/// sequence `cards`: the sample is what the deterministic rules give.
pub open spec fn sample_of(state: State, action: Action, cards: Seq<Card>, s: Sample) -> bool {
    match action {
        Action::Hit => cards.len() > 0 && hit_post(state, cards[0], s),
        Action::Stick => stick_res(state.player as int, state.dealer as int, cards)
            matches Some((d, rew, used)) && {
            &&& s.state.dealer == d
            &&& s.state.player == state.player
            &&& s.reward == rew
            &&& s.terminal
        },
    }
}

/// One environment transition with freshly drawn cards.  Whatever the
/// draws, the outcome is the deterministic rules applied to some legal
/// card sequence; `None` only in the vanishingly unlikely case that the
/// dealer is still below 17 after 64 draws.
pub fn step(state: State, action: Action) -> (r: Option<Sample>)
    requires
        state.playable(),
    ensures
        r matches Some(s) ==> exists|cards: Seq<Card>|
            (forall|i: int| 0 <= i < cards.len() ==> (#[trigger] cards[i]).wf())
                && #[trigger] sample_of(state, action, cards, s),
{
    let mut deck = Deck::fresh(64);
    let ghost cards = deck.remaining();
    let r = step_drawn(state, action, &mut deck);
    proof {
        if r is Some {
            let s = r->Some_0;
            assert(forall|i: int| 0 <= i < cards.len() ==> (#[trigger] cards[i]).wf());
            assert(sample_of(state, action, cards, s));
        }
    }
    r
}

/// Bounds every dealer playout observes: the final total stays in the
/// table range, the reward is a sign, and no more cards are used than
/// exist.
pub proof fn lemma_stick_bounds(player: int, dealer: int, cards: Seq<Card>)
    requires
        1 <= dealer <= 21,
        forall|i: int| 0 <= i < cards.len() ==> (#[trigger] cards[i]).wf(),
    ensures
        stick_res(player, dealer, cards) matches Some((d, rew, used)) ==> {
            &&& -9 <= d <= 26
            &&& -1 <= rew <= 1
            &&& 0 <= used <= cards.len()
        },
    decreases cards.len(),
{
    if dealer >= 17 {
    } else if cards.len() == 0 {
    } else {
        let d2 = dealer + card_delta(cards[0]);
        if bust(d2) {
        } else {
            lemma_stick_bounds(player, d2, cards.drop_first());
        }
    }
}

/// The dealer's playout ends within a bounded number of draws: while
/// below 17 every additive draw raises the total by at least one, so
/// from any playable total, cards that all add reach a terminal outcome
/// after at most `17 - dealer` draws (at most 16).
pub proof fn lemma_stick_terminates_black(player: int, dealer: int, cards: Seq<Card>)
    requires
        1 <= dealer <= 21,
        forall|i: int| 0 <= i < cards.len() ==> (#[trigger] cards[i]).wf(),
        forall|i: int| 0 <= i < cards.len() ==> (#[trigger] cards[i]).color == CardColor::Black,
        dealer >= 17 || cards.len() >= 17 - dealer,
    ensures
        stick_res(player, dealer, cards) matches Some((d, rew, used))
            && used <= (if dealer >= 17 { 0int } else { 17 - dealer }),
    decreases cards.len(),
{
    if dealer >= 17 {
    } else {
        let d2 = dealer + card_delta(cards[0]);
        assert(d2 > dealer);
        if bust(d2) {
        } else {
            assert(forall|i: int| 0 <= i < cards.drop_first().len()
                ==> (#[trigger] cards.drop_first()[i]).wf() && cards.drop_first()[i].color == CardColor::Black);
            lemma_stick_terminates_black(player, d2, cards.drop_first());
        }
    }
}

/// A fixed example policy: stick on 20 or more, otherwise hit.
pub fn example_policy(state: &State) -> (r: Action)
    ensures
        r == (if state.player >= 20 { Action::Stick } else { Action::Hit }),
{
    if state.player >= 20 {
        Action::Stick
    } else {
        Action::Hit
    }
}

/// Run one full game from a fresh deal, consuming cards from the deck:
/// query the policy, record the pair, step, until a terminal sample.
/// Returns the visited `(state, action)` pairs and the terminal reward,
/// or `None` if the deck ran out first.  Every recorded state is
/// playable and the reward is in `{-1, 0, 1}`.
pub fn episode<P: Fn(&State) -> Action>(deck: &mut Deck, policy: &P) -> (r: Option<(Vec<(State, Action)>, i32)>)
    requires
        old(deck).wf(),
        forall|s: &State| s.playable() ==> call_requires(*policy, (s,)),
    ensures
        final(deck).wf(),
        r matches Some((sa, reward)) ==> {
            &&& sa@.len() >= 1
            &&& forall|i: int| 0 <= i < sa@.len() ==> (#[trigger] sa@[i]).0.playable()
            &&& -1 <= reward <= 1
        },
{
    if deck.remaining_len() < 2 {
        return None;
    }
    let c1 = deck.take();
    let c2 = deck.take();
    let mut state = State { dealer: c1.value, player: c2.value };
    let mut state_actions: Vec<(State, Action)> = Vec::new();
    loop
        invariant
            deck.wf(),
            state.playable(),
            forall|i: int| 0 <= i < state_actions@.len() ==> (#[trigger] state_actions@[i]).0.playable(),
            forall|s: &State| s.playable() ==> call_requires(*policy, (s,)),
        decreases deck.remaining().len(),
    {
        let ghost rem0 = deck.remaining();
        let action = policy(&state);
        state_actions.push((state, action));
        let stepped = step_drawn(state, action, deck);
        match stepped {
            None => {
                return None;
            },
            Some(sample) => {
                if sample.terminal {
                    proof {
                        if sample.reward < -1 || sample.reward > 1 {
                            match action {
                                Action::Hit => {},
                                Action::Stick => {
                                    lemma_stick_bounds(state.player as int, state.dealer as int, rem0);
                                },
                            }
                        }
                    }
                    return Some((state_actions, sample.reward));
                }
                // a non-terminal sample comes only from a hit that kept
                // the player's total in range, so the game goes on
                state = sample.state;
            },
        }
    }
}

} // verus!
