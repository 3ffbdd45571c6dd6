use minigames::game::feedback::{Verdict, FEEDBACK_HOLD_MS};
use minigames::game::memory::{
    generate_sequence, sequence_len_for_question, MemoryGame, Phase, ShowSubPhase, BLANK_INTERVAL_MS,
    RESULT_INTERVAL_MS, SESSION_DIFFICULTY, SHOW_OFF_DURATION_MS, SHOW_ON_DURATION_MS,
};
use minigames::game::{Difficulty, QUESTIONS_PER_SESSION};
use minigames::rect::Rect;
use rand::rngs::StdRng;
use rand::SeedableRng;

const EXPECTED_LENGTHS: [usize; 10] = [3, 3, 3, 5, 5, 5, 5, 7, 7, 7];

fn advance_one_step(game: &mut MemoryGame) {
    game.update(SHOW_ON_DURATION_MS);
    game.update(SHOW_OFF_DURATION_MS);
}

fn key_of(panel: usize) -> char {
    std::char::from_digit(panel as u32, 10).unwrap()
}

fn show_all(game: &mut MemoryGame) {
    let len = game.sequence().len();
    for _ in 0..len {
        advance_one_step(game);
    }
}

fn play_current_sequence(game: &mut MemoryGame, correct: bool) {
    show_all(game);
    assert!(matches!(game.phase(), Phase::Input { entered: 0 }));
    if !correct {
        let wrong_first = if game.sequence()[0] == 1 { 2 } else { 1 };
        game.handle_key(key_of(wrong_first), 100);
        return;
    }
    let sequence = game.sequence().clone();
    for &panel in &sequence {
        game.handle_key(key_of(panel), 100);
    }
}

/// The four panels as a 2×2 grid of 10×5 cells: 1 top left, 2 top right, 3 bottom left, 4 bottom right.
fn panels() -> Vec<(usize, Rect)> {
    vec![
        (1, Rect::new(0, 0, 10, 5)),
        (2, Rect::new(10, 0, 10, 5)),
        (3, Rect::new(0, 5, 10, 5)),
        (4, Rect::new(10, 5, 10, 5)),
    ]
}

#[test]
fn sequence_len_follows_three_four_three_questions() {
    for (index, expected) in EXPECTED_LENGTHS.iter().enumerate() {
        assert_eq!(sequence_len_for_question(index as u32), *expected, "{}問目", index + 1);
    }
}

#[test]
fn generated_sequence_has_expected_length_per_question() {
    let mut rng = StdRng::seed_from_u64(1);
    for (index, expected) in EXPECTED_LENGTHS.iter().enumerate() {
        assert_eq!(generate_sequence(&mut rng, index as u32).len(), *expected, "{}問目", index + 1);
    }
}

#[test]
fn generated_sequence_only_contains_valid_panel_numbers() {
    let mut rng = StdRng::seed_from_u64(2);
    for _ in 0..50 {
        let seq = generate_sequence(&mut rng, 9);
        for &p in &seq {
            assert!((1..=4).contains(&p));
        }
    }
}

#[test]
fn session_sequences_follow_fixed_progression() {
    let mut game = MemoryGame::with_rng(StdRng::from_entropy());
    for (index, expected) in EXPECTED_LENGTHS.iter().enumerate() {
        assert_eq!(game.sequence().len(), *expected, "{}問目の手数", index + 1);
        play_current_sequence(&mut game, index % 2 == 0);
        assert_eq!(game.tracker().total(), index as u32 + 1);
        if !game.is_finished() {
            game.update(RESULT_INTERVAL_MS);
            game.update(BLANK_INTERVAL_MS);
        }
    }
    assert!(game.is_finished(), "10問で終わる");
    assert_eq!(game.tracker().total(), 10);
}

#[test]
fn result_records_session_difficulty() {
    assert_eq!(SESSION_DIFFICULTY, Difficulty::Advanced);
}

#[test]
fn showing_phase_advances_to_input_after_all_steps_shown() {
    let mut game = MemoryGame::with_rng(StdRng::from_entropy());
    show_all(&mut game);
    assert!(matches!(game.phase(), Phase::Input { entered: 0 }));
}

#[test]
fn showing_phase_does_not_advance_before_interval_elapses() {
    let mut game = MemoryGame::with_rng(StdRng::from_entropy());
    game.update(SHOW_ON_DURATION_MS / 2);
    assert!(matches!(game.phase(), Phase::Showing { shown: 0, .. }));
}

#[test]
fn lit_panel_goes_dark_between_steps() {
    let mut game = MemoryGame::with_rng(StdRng::seed_from_u64(4));
    let first = game.sequence()[0];
    assert_eq!(game.active_panel(), Some(first));
    game.update(SHOW_ON_DURATION_MS - 1);
    assert_eq!(game.active_panel(), Some(first));
    game.update(1);
    assert_eq!(game.active_panel(), None);
    assert!(matches!(game.phase(), Phase::Showing { sub_phase: ShowSubPhase::Off, .. }));
    game.update(SHOW_OFF_DURATION_MS);
    assert_eq!(game.active_panel(), Some(game.sequence()[1]));
    assert!(matches!(game.phase(), Phase::Showing { shown: 1, sub_phase: ShowSubPhase::On, .. }));
}

#[test]
fn correct_full_sequence_input_records_correct_answer() {
    let mut game = MemoryGame::with_rng(StdRng::from_entropy());
    play_current_sequence(&mut game, true);
    assert_eq!(game.tracker().total(), 1);
    assert_eq!(game.tracker().correct(), 1);
    assert_eq!(game.tracker().latencies_ms(), &vec![100]);
}

#[test]
fn wrong_key_during_input_immediately_finalizes_as_incorrect() {
    let mut game = MemoryGame::with_rng(StdRng::from_entropy());
    play_current_sequence(&mut game, false);
    assert_eq!(game.tracker().total(), 1);
    assert!(matches!(game.phase(), Phase::Interval { is_correct: false, .. }));
}

#[test]
fn interval_advances_to_blank_after_result_interval() {
    let mut game = MemoryGame::with_rng(StdRng::from_entropy());
    play_current_sequence(&mut game, true);
    assert!(matches!(game.phase(), Phase::Interval { is_correct: true, .. }));
    game.update(RESULT_INTERVAL_MS - 1);
    assert!(matches!(game.phase(), Phase::Interval { .. }));
    game.update(1);
    assert!(matches!(game.phase(), Phase::Blank { .. }));
}

#[test]
fn blank_advances_to_next_sequence_after_blank_interval() {
    let mut game = MemoryGame::with_rng(StdRng::from_entropy());
    play_current_sequence(&mut game, true);
    game.update(RESULT_INTERVAL_MS);
    assert!(matches!(game.phase(), Phase::Blank { .. }));
    game.update(BLANK_INTERVAL_MS - 1);
    assert!(matches!(game.phase(), Phase::Blank { .. }));
    game.update(1);
    assert!(matches!(game.phase(), Phase::Showing { shown: 0, sub_phase: ShowSubPhase::On, .. }));
}

#[test]
fn finishing_a_sequence_updates_hud_feedback() {
    let mut game = MemoryGame::with_rng(StdRng::from_entropy());
    play_current_sequence(&mut game, true);
    let flash = game.feedback().current().expect("正誤確定直後は表示する");
    assert_eq!(flash.verdict, Verdict::Correct);
    assert_eq!(game.feedback().correct(), 1);
    assert_eq!(game.feedback().streak(), 1);
    game.update(FEEDBACK_HOLD_MS);
    assert!(game.feedback().current().is_none());
    assert_eq!(game.feedback().correct(), 1);
}

#[test]
fn key_input_is_ignored_during_showing_phase() {
    let mut game = MemoryGame::with_rng(StdRng::from_entropy());
    game.handle_key('1', 10);
    assert_eq!(game.tracker().total(), 0);
}

#[test]
fn memory_session_finishes_after_configured_question_count() {
    let mut game = MemoryGame::with_rng(StdRng::from_entropy());
    for _ in 0..QUESTIONS_PER_SESSION {
        show_all(&mut game);
        let sequence = game.sequence().clone();
        for &panel in &sequence {
            if game.is_finished() {
                break;
            }
            game.handle_key(key_of(panel), 50);
        }
        if !game.is_finished() {
            game.update(RESULT_INTERVAL_MS);
            game.update(BLANK_INTERVAL_MS);
        }
    }
    assert!(game.is_finished());
    assert_eq!(game.tracker().total(), QUESTIONS_PER_SESSION);
    game.handle_key('1', 10);
    game.update(10_000);
    assert_eq!(game.tracker().total(), QUESTIONS_PER_SESSION);
}

#[test]
fn clicking_correct_panel_sequence_via_mouse_records_correct_answer() {
    let mut game = MemoryGame::with_rng(StdRng::from_entropy());
    show_all(&mut game);
    let areas = panels();
    let sequence = game.sequence().clone();
    for &panel in &sequence {
        let (_, area) = areas.iter().find(|(p, _)| *p == panel).unwrap();
        game.handle_click(&areas, area.x, area.y, 120);
    }
    assert_eq!(game.tracker().total(), 1);
    assert_eq!(game.tracker().correct(), 1);
}

#[test]
fn clicking_panel_during_showing_phase_is_ignored() {
    let mut game = MemoryGame::with_rng(StdRng::from_entropy());
    game.handle_click(&panels(), 0, 0, 10);
    assert_eq!(game.tracker().total(), 0);
}

#[test]
fn clicking_outside_every_panel_is_ignored() {
    let mut game = MemoryGame::with_rng(StdRng::from_entropy());
    show_all(&mut game);
    game.handle_click(&panels(), 30, 30, 10);
    assert!(matches!(game.phase(), Phase::Input { entered: 0 }));
    assert_eq!(game.tracker().total(), 0);
}

#[test]
fn consecutive_same_panel_blinks_off_between_repeats() {
    let mut game = (0..100_000u64)
        .map(|seed| MemoryGame::with_rng(StdRng::seed_from_u64(seed)))
        .find(|game| game.sequence() == &vec![1, 1, 3])
        .expect("1, 1, 3 の順に光る問題");
    assert_eq!(game.active_panel(), Some(1));
    assert!(matches!(game.phase(), Phase::Showing { shown: 0, sub_phase: ShowSubPhase::On, elapsed_in_step_ms: 0 }));

    game.update(SHOW_ON_DURATION_MS - 1);
    assert_eq!(game.active_panel(), Some(1));

    game.update(1);
    assert_eq!(game.active_panel(), None);
    assert!(matches!(game.phase(), Phase::Showing { sub_phase: ShowSubPhase::Off, .. }));

    game.update(SHOW_OFF_DURATION_MS);
    assert_eq!(game.active_panel(), Some(1));
    assert!(matches!(game.phase(), Phase::Showing { shown: 1, sub_phase: ShowSubPhase::On, .. }));
}

#[test]
fn status_text_follows_the_phase() {
    let mut game = MemoryGame::with_rng(StdRng::seed_from_u64(3));
    assert_eq!(game.status_text(), "提示中… 順番を覚えてください  (1/3)");
    advance_one_step(&mut game);
    assert_eq!(game.status_text(), "提示中… 順番を覚えてください  (2/3)");
    advance_one_step(&mut game);
    advance_one_step(&mut game);
    assert_eq!(game.status_text(), "入力中: 数字キー1〜4で再現  残り3手");
    let first = game.sequence()[0];
    game.handle_key(key_of(first), 100);
    assert_eq!(game.status_text(), "入力中: 数字キー1〜4で再現  残り2手");
    let mut wrong = MemoryGame::with_rng(StdRng::seed_from_u64(3));
    play_current_sequence(&mut wrong, false);
    assert_eq!(wrong.status_text(), "ざんねん…   つぎいくよ…");
    wrong.update(RESULT_INTERVAL_MS);
    assert_eq!(wrong.status_text(), "");
}
