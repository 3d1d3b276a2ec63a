use guessing_game::game::{compare, GuessLoop, Outcome, Step, HIGHEST, LOWEST};

fn judged_less(g: u32) -> Step {
    Step::Judged(g, Outcome::Less)
}

fn judged_greater(g: u32) -> Step {
    Step::Judged(g, Outcome::Greater)
}

fn win(g: u32) -> Step {
    Step::Judged(g, Outcome::Equal)
}

#[test]
fn scenario_mixed_lines_secret_42() {
    let mut game = GuessLoop::new(42);
    let steps = game.play_lines(&["10", "abc", "70", "42"]);
    assert_eq!(
        steps,
        vec![judged_less(10), Step::Retry, judged_greater(70), win(42)]
    );
    assert_eq!(steps.len(), 4);
    let comparisons = steps.iter().filter(|s| **s != Step::Retry).count();
    assert_eq!(comparisons, 3);
    assert!(game.is_done());
    assert_eq!(game.secret(), 42);
}

#[test]
fn scenario_immediate_win_secret_1() {
    let mut game = GuessLoop::new(1);
    let steps = game.play_lines(&["1"]);
    assert_eq!(steps, vec![win(1)]);
    assert!(game.is_done());
}

#[test]
fn scenario_scan_up_to_100() {
    let mut game = GuessLoop::new(100);
    for g in 1..100u32 {
        let s = game.step(&g.to_string());
        assert_eq!(s, judged_less(g));
        assert!(!game.is_done());
    }
    assert_eq!(game.step("100"), win(100));
    assert!(game.is_done());
}

#[test]
fn misses_then_hit_one_step_per_guess() {
    let mut game = GuessLoop::new(37);
    let guesses = vec![Some(50), Some(20), Some(40), Some(30), Some(37)];
    let steps = game.play(&guesses);
    assert_eq!(
        steps,
        vec![
            judged_greater(50),
            judged_less(20),
            judged_greater(40),
            judged_less(30),
            win(37)
        ]
    );
    assert!(game.is_done());
}

#[test]
fn malformed_lines_then_secret_still_wins() {
    let mut game = GuessLoop::new(7);
    let steps = game.play_lines(&["abc", "", "-5", "3.14", "  ", "7"]);
    assert_eq!(
        steps,
        vec![
            Step::Retry,
            Step::Retry,
            Step::Retry,
            Step::Retry,
            Step::Retry,
            win(7)
        ]
    );
    assert_eq!(game.secret(), 7);
}

#[test]
fn malformed_line_leaves_game_unchanged() {
    let mut game = GuessLoop::new(64);
    for line in ["abc", "", "-5", "3.14", "1e3", "0x10", "4294967296"] {
        assert_eq!(game.step(line), Step::Retry);
        assert_eq!(game.secret(), 64);
        assert!(!game.is_done());
    }
}

#[test]
fn lines_after_the_win_are_not_answered() {
    let mut game = GuessLoop::new(5);
    let steps = game.play_lines(&["9", "5", "3", "5"]);
    assert_eq!(steps, vec![judged_greater(9), win(5)]);
    assert!(game.is_done());
}

#[test]
fn no_win_when_inputs_run_out() {
    let mut game = GuessLoop::new(5);
    let steps = game.play(&vec![Some(1), None, Some(6)]);
    assert_eq!(steps, vec![judged_less(1), Step::Retry, judged_greater(6)]);
    assert!(!game.is_done());
}

#[test]
fn empty_input_gives_no_steps() {
    let mut game = GuessLoop::new(5);
    assert_eq!(game.play_lines(&[]), Vec::<Step>::new());
    assert!(!game.is_done());
}

#[test]
fn step_trims_the_line() {
    let mut game = GuessLoop::new(42);
    assert_eq!(game.step("  10 \n"), judged_less(10));
    assert_eq!(game.step("\t42\r\n"), win(42));
}

#[test]
fn guesses_outside_the_range_are_compared() {
    let mut game = GuessLoop::new(HIGHEST);
    assert_eq!(game.step("0"), judged_less(0));
    assert_eq!(game.step("4294967295"), judged_greater(u32::MAX));
    let mut low = GuessLoop::new(LOWEST);
    assert_eq!(low.feed(Some(0)), judged_less(0));
    assert_eq!(low.feed(Some(2)), judged_greater(2));
    assert_eq!(low.feed(None), Step::Retry);
    assert_eq!(low.feed(Some(1)), win(1));
}

#[test]
fn compare_orders_integers() {
    assert_eq!(compare(3, 4), Outcome::Less);
    assert_eq!(compare(5, 4), Outcome::Greater);
    assert_eq!(compare(4, 4), Outcome::Equal);
    assert_eq!(compare(0, u32::MAX), Outcome::Less);
}

#[test]
fn random_secret_lies_in_range() {
    for _ in 0..200 {
        let game = GuessLoop::new_random();
        let s = game.secret();
        assert!(LOWEST <= s && s <= HIGHEST);
        assert!(!game.is_done());
    }
}

#[test]
fn range_bounds() {
    assert_eq!(LOWEST, 1);
    assert_eq!(HIGHEST, 100);
}
