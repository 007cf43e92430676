use tape21::env::Action;
use tape21::env::Card;
use tape21::env::CardColor;
use tape21::env::Deck;
use tape21::env::State;
use tape21::env::episode;
use tape21::env::example_policy;
use tape21::env::hit_card;
use tape21::env::is_bust;
use tape21::env::step;
use tape21::env::step_drawn;
use tape21::env::stick_walk;

fn black(value: i32) -> Card {
    Card { value, color: CardColor::Black }
}

fn red(value: i32) -> Card {
    Card { value, color: CardColor::Red }
}

#[test]
fn bust_boundaries() {
    assert!(is_bust(0));
    assert!(is_bust(-5));
    assert!(!is_bust(1));
    assert!(!is_bust(21));
    assert!(is_bust(22));
    assert!(is_bust(31));
}

#[test]
fn hit_scenario() {
    // dealer 3, player 2; a black 5 takes the player to 7, game on
    let s0 = State { dealer: 3, player: 2 };
    let r1 = hit_card(s0, black(5));
    assert_eq!(r1.state, State { dealer: 3, player: 7 });
    assert_eq!(r1.reward, 0);
    assert!(!r1.terminal);

    // a black 10 from 7 reaches 17, still in range
    let r2 = hit_card(r1.state, black(10));
    assert_eq!(r2.state, State { dealer: 3, player: 17 });
    assert_eq!(r2.reward, 0);
    assert!(!r2.terminal);

    // another black 10 busts at 27: terminal, reward -1
    let r3 = hit_card(r2.state, black(10));
    assert_eq!(r3.state.player, 27);
    assert_eq!(r3.reward, -1);
    assert!(r3.terminal);
}

#[test]
fn hit_bust_low() {
    // a red card below 1 busts too
    let s0 = State { dealer: 5, player: 3 };
    let r = hit_card(s0, red(7));
    assert_eq!(r.state.player, -4);
    assert!(r.terminal);
    assert_eq!(r.reward, -1);
}

#[test]
fn dealer_plays_to_seventeen() {
    // dealer 1 with additive draws finishes within 16 cards
    let state = State { dealer: 1, player: 10 };
    let cards = vec![black(1); 16];
    let mut deck = Deck::from_cards(cards);
    let r = stick_walk(state, &mut deck).expect("sixteen additive cards reach 17");
    assert!(r.terminal);
    assert_eq!(r.state.dealer, 17);
    assert_eq!(r.state.player, 10);
    assert_eq!(r.reward, -1);
}

#[test]
fn dealer_busts_rewards_player() {
    let state = State { dealer: 16, player: 4 };
    let mut deck = Deck::from_cards(vec![black(10)]);
    let r = stick_walk(state, &mut deck).expect("one card ends it");
    assert!(r.terminal);
    assert_eq!(r.state.dealer, 26);
    assert_eq!(r.reward, 1);
}

#[test]
fn dealer_can_fall_and_recover() {
    // a red draw lowers the dealer below where it started
    let state = State { dealer: 10, player: 15 };
    let mut deck = Deck::from_cards(vec![red(5), black(10), black(4)]);
    let r = stick_walk(state, &mut deck).expect("three cards finish");
    // 10 -> 5 -> 15 -> 19, then stick: player 15 < dealer 19
    assert_eq!(r.state.dealer, 19);
    assert_eq!(r.reward, -1);
    assert!(r.terminal);
}

#[test]
fn stick_on_seventeen_draws_nothing() {
    let state = State { dealer: 17, player: 17 };
    let mut deck = Deck::from_cards(vec![black(10)]);
    let r = step_drawn(state, Action::Stick, &mut deck).expect("no card needed");
    assert!(r.terminal);
    assert_eq!(r.reward, 0);
    assert_eq!(r.state.dealer, 17);
}

#[test]
fn deck_runs_out() {
    let state = State { dealer: 2, player: 2 };
    let mut deck = Deck::from_cards(vec![]);
    assert!(step_drawn(state, Action::Hit, &mut deck).is_none());
    assert!(step_drawn(state, Action::Stick, &mut deck).is_none());
}

#[test]
fn random_step_stick_is_terminal() {
    for _ in 0..50 {
        let s = step(State { dealer: 5, player: 12 }, Action::Stick).expect("deck is ample");
        assert!(s.terminal);
        assert!(s.reward >= -1 && s.reward <= 1);
        assert_eq!(s.state.player, 12);
    }
}

#[test]
fn random_step_hit_moves_player() {
    for _ in 0..50 {
        let s = step(State { dealer: 5, player: 12 }, Action::Hit).expect("deck is ample");
        let d = s.state.player - 12;
        assert!(d != 0 && d >= -10 && d <= 10);
        assert_eq!(s.state.dealer, 5);
        assert_eq!(s.terminal, s.state.player < 1 || s.state.player > 21);
    }
}

#[test]
fn drawn_cards_stay_legal() {
    // if the randomness source misbehaved, values would leave 1..=10
    for _ in 0..200 {
        let c = Card::draw();
        assert!(c.value >= 1 && c.value <= 10);
    }
    let init = State::init();
    assert!(init.dealer >= 1 && init.dealer <= 10);
    assert!(init.player >= 1 && init.player <= 10);
}

#[test]
fn episode_replays_deterministically() {
    // deal dealer 5 / player 9; hit to 19, hit to 20, stick; dealer
    // draws to 17 and the player wins
    let cards = vec![black(5), black(9), black(10), black(1), black(10), black(2)];
    let mut deck = Deck::from_cards(cards);
    let (visited, reward) = episode(&mut deck, &example_policy).expect("scripted episode ends");
    assert_eq!(reward, 1);
    assert_eq!(
        visited,
        vec![
            (State { dealer: 5, player: 9 }, Action::Hit),
            (State { dealer: 5, player: 19 }, Action::Hit),
            (State { dealer: 5, player: 20 }, Action::Stick),
        ]
    );
}
