use mastermind::{evaluate, Code, Color, Game, Result, State, GAME_TRY};

const SECRET: Code = [Color::White, Color::Blue, Color::Green, Color::Black];
const WRONG: Code = [Color::Black, Color::White, Color::Blue, Color::Green];

#[test]
fn new_game_is_playable_and_empty() {
    let game = Game::new();
    match game.get_state() {
        State::Playable(playable) => assert!(playable.tries.is_empty()),
        _ => panic!(),
    }
    let game = Game::new_with_secret_code(SECRET);
    match game.get_state() {
        State::Playable(playable) => assert_eq!(playable.tries.len(), 0),
        _ => panic!(),
    }
}

#[test]
fn first_guess_right_wins_and_reveals_secret() {
    let mut game = Game::new_with_secret_code(SECRET);
    match game.play(SECRET) {
        State::Finish(finish) => {
            assert_eq!(finish.result, Result::Win);
            assert_eq!(finish.code, SECRET);
            assert_eq!(finish.tries.len(), 1);
            assert_eq!(finish.tries[0].good, 4);
            assert_eq!(finish.tries[0].bad, 0);
        }
        _ => panic!(),
    }
}

#[test]
fn loss_comes_on_the_tenth_play_only() {
    let mut game = Game::new_with_secret_code(SECRET);
    for n in 1..GAME_TRY {
        match game.play(WRONG) {
            State::Playable(playable) => assert_eq!(playable.tries.len(), n),
            _ => panic!(),
        }
    }
    match game.play(WRONG) {
        State::Finish(finish) => {
            assert_eq!(finish.result, Result::Loose);
            assert_eq!(finish.code, SECRET);
            assert_eq!(finish.tries.len(), GAME_TRY);
        }
        _ => panic!(),
    }
}

#[test]
fn win_on_last_allowed_play_is_a_win() {
    let mut game = Game::new_with_secret_code(SECRET);
    for _ in 1..GAME_TRY {
        game.play(WRONG);
    }
    match game.play(SECRET) {
        State::Finish(finish) => {
            assert_eq!(finish.result, Result::Win);
            assert_eq!(finish.tries.len(), GAME_TRY);
        }
        _ => panic!(),
    }
}

#[test]
fn play_after_finish_changes_nothing() {
    let mut game = Game::new_with_secret_code(SECRET);
    game.play(WRONG);
    game.play(SECRET);
    for _ in 0..3 {
        match game.play(WRONG) {
            State::Finish(finish) => {
                assert_eq!(finish.result, Result::Win);
                assert_eq!(finish.code, SECRET);
                assert_eq!(finish.tries.len(), 2);
                assert_eq!(finish.tries[0].code, WRONG);
                assert_eq!(finish.tries[1].code, SECRET);
            }
            _ => panic!(),
        }
    }
}

#[test]
fn history_keeps_order_of_play() {
    let guesses: [Code; 3] = [
        [Color::Red, Color::Red, Color::Red, Color::Red],
        WRONG,
        [Color::White, Color::Blue, Color::Yellow, Color::Yellow],
    ];
    let mut game = Game::new_with_secret_code(SECRET);
    for g in guesses.iter() {
        game.play(*g);
    }
    match game.get_state() {
        State::Playable(playable) => {
            assert_eq!(playable.tries.len(), 3);
            for (t, g) in playable.tries.iter().zip(guesses.iter()) {
                assert_eq!(t.code, *g);
                assert_eq!((t.good, t.bad), evaluate(&SECRET, g));
            }
            assert_eq!((playable.tries[0].good, playable.tries[0].bad), (0, 0));
            assert_eq!((playable.tries[1].good, playable.tries[1].bad), (0, 4));
            assert_eq!((playable.tries[2].good, playable.tries[2].bad), (2, 0));
        }
        _ => panic!(),
    }
}

#[test]
fn secret_from_draws_maps_each_draw_modulo_colors() {
    let expected: Code = [Color::Black, Color::White, Color::Green, Color::Blue];
    let mut game = Game::new_from_draws(0, 7, 11, usize::MAX);
    match game.play(expected) {
        State::Finish(finish) => {
            assert_eq!(finish.result, Result::Win);
            assert_eq!(finish.code, expected);
        }
        _ => panic!(),
    }
}

#[test]
fn secret_from_draws_may_repeat_colors() {
    let mut game = Game::new_from_draws(4, 10, 16, 22);
    let expected: Code = [Color::Red, Color::Red, Color::Red, Color::Red];
    match game.play(expected) {
        State::Finish(finish) => assert_eq!(finish.code, expected),
        _ => panic!(),
    }
}
