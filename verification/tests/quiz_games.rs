use minigames::game::mental_calc::{build_question as build_calc, CalcDraws};
use minigames::game::pattern_fill::{build_question as build_pattern, Cell, PatternDraws};
use minigames::game::puzzle_connect::{build_question as build_puzzle, PuzzleDraws};
use minigames::game::mental_calc::{generate_question as calc_question, MentalCalcGame, Operator, CHOICE_COUNT};
use minigames::game::pattern_fill::{
    generate_question as pattern_question, normalize_angle, PatternFillGame, GRID_SIZE,
};
use minigames::game::puzzle_connect::{
    generate_question as puzzle_question, rotation_angle_deg, PuzzleConnectGame, SHAPE_NAMES,
};
use minigames::game::feedback::{Verdict, FEEDBACK_HOLD_MS};
use minigames::game::{Difficulty, BASE_SHAPE_COUNT, QUESTIONS_PER_SESSION};
use minigames::rect::Rect;
use rand::rngs::StdRng;
use rand::SeedableRng;

const DIFFICULTIES: [Difficulty; 3] = [Difficulty::Beginner, Difficulty::Intermediate, Difficulty::Advanced];

// --- mental arithmetic ---

#[test]
fn generated_question_has_unique_choices() {
    let mut rng = StdRng::seed_from_u64(30);
    for _ in 0..100 {
        let q = calc_question(&mut rng, Difficulty::Intermediate);
        let mut sorted = q.choices.to_vec();
        sorted.sort();
        sorted.dedup();
        assert_eq!(sorted.len(), CHOICE_COUNT, "選択肢に重複がある");
        assert!(q.correct_index < CHOICE_COUNT);
    }
}

#[test]
fn advanced_division_always_divides_evenly() {
    let mut rng = StdRng::seed_from_u64(31);
    for _ in 0..100 {
        let q = calc_question(&mut rng, Difficulty::Advanced);
        if q.expression.contains('÷') {
            let answer = q.choices[q.correct_index];
            let parts: Vec<&str> = q.expression.split(" ÷ ").collect();
            let a: i64 = parts[0].parse().unwrap();
            let b: i64 = parts[1].parse().unwrap();
            assert_eq!(a % b, 0);
            assert_eq!(a / b, answer);
            assert_eq!(q.operator, Operator::Div);
        }
    }
}

#[test]
fn beginner_subtraction_never_goes_negative() {
    let mut rng = StdRng::seed_from_u64(32);
    for _ in 0..100 {
        let q = calc_question(&mut rng, Difficulty::Beginner);
        if q.expression.contains('-') {
            let answer = q.choices[q.correct_index];
            assert!(answer >= 0);
        }
    }
}

#[test]
fn choices_stay_within_five_of_the_answer() {
    let mut rng = StdRng::seed_from_u64(33);
    for difficulty in DIFFICULTIES {
        for _ in 0..50 {
            let q = calc_question(&mut rng, difficulty);
            let answer = q.choices[q.correct_index];
            assert!(q.choices.iter().all(|c| (c - answer).abs() <= 5));
            let expected = match q.operator {
                Operator::Add => q.lhs + q.rhs,
                Operator::Sub => q.lhs - q.rhs,
                Operator::Mul => q.lhs * q.rhs,
                Operator::Div => q.lhs / q.rhs,
            };
            assert_eq!(answer, expected);
        }
    }
}

#[test]
fn mental_calc_advance_question_records_correct_answer() {
    let mut game = MentalCalcGame::with_rng(Difficulty::Beginner, StdRng::from_entropy());
    let answer = game.current().correct_index;
    game.handle_key(char::from(b'1' + answer as u8), 250);
    assert_eq!(game.tracker().total(), 1);
    assert_eq!(game.tracker().correct(), 1);
    assert_eq!(game.tracker().latencies_ms(), &vec![250]);
}

#[test]
fn clicking_a_choice_row_selects_that_index() {
    let mut game = MentalCalcGame::with_rng(Difficulty::Beginner, StdRng::seed_from_u64(3));
    let inner = Rect::new(1, 6, 38, 4);
    let correct = game.current().correct_index;
    game.handle_click(inner, inner.x, inner.y + correct as u16, 100);
    assert_eq!(game.tracker().total(), 1);
    assert_eq!(game.tracker().correct(), 1);
}

#[test]
fn mental_calc_clicking_outside_choices_area_does_nothing() {
    let mut game = MentalCalcGame::with_rng(Difficulty::Beginner, StdRng::from_entropy());
    game.handle_click(Rect::new(1, 6, 38, 4), 1, 2, 100);
    assert_eq!(game.tracker().total(), 0);
}

#[test]
fn answering_shows_feedback_with_expression_and_answer() {
    let mut game = MentalCalcGame::with_rng(Difficulty::Beginner, StdRng::from_entropy());
    let expression = game.current().expression.clone();
    let answer = game.current().choices[game.current().correct_index];
    let wrong = (game.current().correct_index + 1) % CHOICE_COUNT;
    game.handle_key(char::from(b'1' + wrong as u8), 100);
    let flash = game.feedback().current().expect("回答直後は正誤を表示する");
    assert_eq!(flash.verdict, Verdict::Incorrect);
    assert_eq!(flash.detail, format!("{expression} = {answer}"));
    game.update(FEEDBACK_HOLD_MS);
    assert!(game.feedback().current().is_none());
}

#[test]
fn expression_text_asks_for_the_answer() {
    let game = MentalCalcGame::with_rng(Difficulty::Intermediate, StdRng::from_entropy());
    assert_eq!(game.expression_text(), format!("{} = ?", game.current().expression));
}

#[test]
fn mental_calc_session_finishes_after_ten_answers() {
    let mut game = MentalCalcGame::with_rng(Difficulty::Advanced, StdRng::from_entropy());
    for _ in 0..QUESTIONS_PER_SESSION {
        game.handle_key('1', 10);
    }
    assert!(game.is_finished());
    game.handle_key('1', 10);
    assert_eq!(game.tracker().total(), QUESTIONS_PER_SESSION);
}

// --- pattern fill ---

#[test]
fn choices_always_have_exactly_one_correct_and_are_in_range() {
    let mut rng = StdRng::seed_from_u64(10);
    for difficulty in DIFFICULTIES {
        for _ in 0..50 {
            let q = pattern_question(&mut rng, difficulty);
            assert!(q.correct_index < 4);
            assert!(q.blank_index < GRID_SIZE);
            assert_eq!(q.choices[q.correct_index], q.cells[q.blank_index]);
            assert_eq!(q.choices.iter().filter(|c| **c == q.cells[q.blank_index]).count(), 1);
        }
    }
}

#[test]
fn beginner_grid_is_a_single_repeated_shape() {
    let mut rng = StdRng::seed_from_u64(11);
    for _ in 0..50 {
        let q = pattern_question(&mut rng, Difficulty::Beginner);
        let expected = q.cells[0].shape_index;
        assert!(q.cells.iter().all(|c| c.shape_index == expected));
        assert!(q.cells.iter().all(|c| c.angle_deg == 0));
        let correct = q.choices[q.correct_index];
        assert_eq!(correct.shape_index, expected);
    }
}

#[test]
fn beginner_choices_have_no_duplicate_shapes() {
    let mut rng = StdRng::seed_from_u64(12);
    for _ in 0..50 {
        let q = pattern_question(&mut rng, Difficulty::Beginner);
        let mut indices: Vec<usize> = q.choices.iter().map(|c| c.shape_index).collect();
        indices.sort();
        indices.dedup();
        assert_eq!(indices.len(), 4, "選択肢の図形が重複している");
        assert!(indices.iter().all(|&i| i < BASE_SHAPE_COUNT));
    }
}

#[test]
fn intermediate_rows_share_the_same_shape() {
    let mut rng = StdRng::seed_from_u64(13);
    for _ in 0..50 {
        let q = pattern_question(&mut rng, Difficulty::Intermediate);
        for row in 0..3 {
            let expected = q.cells[row * 3].shape_index;
            for col in 0..3 {
                assert_eq!(q.cells[row * 3 + col].shape_index, expected);
            }
        }
        let blank_row = q.blank_index / 3;
        let expected_shape = q.cells[blank_row * 3].shape_index;
        let correct = q.choices[q.correct_index];
        assert_eq!(correct.shape_index, expected_shape);
    }
}

#[test]
fn intermediate_uses_three_distinct_row_shapes() {
    let mut rng = StdRng::seed_from_u64(14);
    for _ in 0..50 {
        let q = pattern_question(&mut rng, Difficulty::Intermediate);
        let mut row_shapes: Vec<usize> = (0..3).map(|row| q.cells[row * 3].shape_index).collect();
        row_shapes.sort();
        row_shapes.dedup();
        assert_eq!(row_shapes.len(), 3, "行の図形が重複している");
    }
}

#[test]
fn advanced_cells_rotate_by_a_constant_step() {
    let mut rng = StdRng::seed_from_u64(15);
    for _ in 0..50 {
        let q = pattern_question(&mut rng, Difficulty::Advanced);
        let shape_index = q.cells[0].shape_index;
        assert!(q.cells.iter().all(|c| c.shape_index == shape_index));
        let step = (q.cells[1].angle_deg + 360 - q.cells[0].angle_deg) % 360;
        for i in 0..GRID_SIZE {
            let expected = normalize_angle(i as i64 * step as i64);
            assert_eq!(q.cells[i].angle_deg, expected, "セル{i}の角度が規則から外れている");
        }
        let correct = q.choices[q.correct_index];
        assert_eq!(correct.shape_index, shape_index);
        assert_eq!(correct.angle_deg, q.cells[q.blank_index].angle_deg);
    }
}

#[test]
fn advanced_choices_have_distinct_angles() {
    let mut rng = StdRng::seed_from_u64(16);
    for _ in 0..50 {
        let q = pattern_question(&mut rng, Difficulty::Advanced);
        let mut angles: Vec<u32> = q.choices.iter().map(|c| c.angle_deg).collect();
        angles.sort();
        angles.dedup();
        assert_eq!(angles.len(), 4, "選択肢の回転角が重複している");
    }
}

#[test]
fn normalize_angle_wraps_into_0_to_360_range() {
    assert_eq!(normalize_angle(0), 0);
    assert_eq!(normalize_angle(370), 10);
    assert_eq!(normalize_angle(-30), 330);
    assert_eq!(normalize_angle(720), 0);
}

#[test]
fn pattern_fill_advance_question_records_correct_answer() {
    let mut game = PatternFillGame::with_rng(Difficulty::Beginner, StdRng::from_entropy());
    let answer = game.current().correct_index;
    game.handle_key(char::from(b'1' + answer as u8), 10);
    assert_eq!(game.tracker().total(), 1);
    assert_eq!(game.tracker().correct(), 1);
}

#[test]
fn advance_question_records_incorrect_answer() {
    let mut game = PatternFillGame::with_rng(Difficulty::Beginner, StdRng::from_entropy());
    let wrong = (game.current().correct_index + 1) % 4;
    game.handle_key(char::from(b'1' + wrong as u8), 10);
    assert_eq!(game.tracker().total(), 1);
    assert_eq!(game.tracker().correct(), 0);
}

#[test]
fn pattern_fill_session_finishes_after_configured_question_count() {
    let mut game = PatternFillGame::with_rng(Difficulty::Beginner, StdRng::from_entropy());
    for _ in 0..QUESTIONS_PER_SESSION {
        let answer = game.current().correct_index;
        game.handle_key(char::from(b'1' + answer as u8), 10);
    }
    assert!(game.is_finished());
    assert_eq!(game.tracker().correct(), QUESTIONS_PER_SESSION);
}

// --- puzzle connect ---

#[test]
fn choices_contain_piece_b_and_are_unique() {
    let mut rng = StdRng::seed_from_u64(20);
    for difficulty in DIFFICULTIES {
        for _ in 0..50 {
            let q = puzzle_question(&mut rng, difficulty);
            let mut sorted = q.choices.to_vec();
            sorted.sort();
            sorted.dedup();
            assert_eq!(sorted.len(), 4);
            assert_eq!(q.choices[q.correct_choice_position], q.piece_b);
            assert!(q.choices.iter().all(|&c| c < SHAPE_NAMES.len()));
        }
    }
}

#[test]
fn rotation_angles_follow_difficulty() {
    let mut rng = StdRng::seed_from_u64(21);
    for _ in 0..100 {
        assert_eq!(rotation_angle_deg(&mut rng, Difficulty::Beginner), 0);
        let intermediate = rotation_angle_deg(&mut rng, Difficulty::Intermediate);
        assert!(intermediate < 360 && intermediate % 45 == 0);
        assert!(rotation_angle_deg(&mut rng, Difficulty::Advanced) < 360);
    }
}

#[test]
fn puzzle_answer_names_the_real_piece() {
    let mut game = PuzzleConnectGame::with_rng(Difficulty::Intermediate, StdRng::from_entropy());
    let q = *game.current();
    game.handle_key(char::from(b'1' + q.correct_choice_position as u8), 10);
    assert_eq!(game.tracker().correct(), 1);
    assert_eq!(game.feedback().current().unwrap().detail, format!("こたえ: {}", SHAPE_NAMES[q.piece_b]));
}

#[test]
fn clicking_a_candidate_column_selects_it() {
    let mut game = PuzzleConnectGame::with_rng(Difficulty::Beginner, StdRng::seed_from_u64(22));
    let area = Rect::new(0, 10, 40, 8);
    let position = game.current().correct_choice_position;
    game.handle_click(area, position as u16 * 10, 12, 100);
    assert_eq!(game.tracker().total(), 1);
    assert_eq!(game.tracker().correct(), 1);
    game.handle_click(area, 5, 5, 100);
    assert_eq!(game.tracker().total(), 1, "選択肢の外のクリックは何もしない");
}

#[test]
fn puzzle_connect_session_finishes_after_configured_question_count() {
    let mut game = PuzzleConnectGame::with_rng(Difficulty::Advanced, StdRng::from_entropy());
    for _ in 0..QUESTIONS_PER_SESSION {
        let position = game.current().correct_choice_position;
        game.handle_key(char::from(b'1' + position as u8), 10);
    }
    assert!(game.is_finished());
    assert_eq!(game.tracker().correct(), QUESTIONS_PER_SESSION);
}

#[test]
fn puzzle_connect_clicking_outside_choices_area_does_nothing() {
    let mut game = PuzzleConnectGame::with_rng(Difficulty::Beginner, StdRng::from_entropy());
    game.handle_click(Rect::new(0, 10, 40, 8), 3, 2, 10);
    assert_eq!(game.tracker().total(), 0);
}

#[test]
fn beginner_rotation_angle_is_always_zero() {
    let mut rng = StdRng::seed_from_u64(1);
    for _ in 0..20 {
        assert_eq!(rotation_angle_deg(&mut rng, Difficulty::Beginner), 0);
    }
}

#[test]
fn generate_question_choices_have_no_duplicates() {
    let mut rng = StdRng::seed_from_u64(20);
    for _ in 0..50 {
        let q = puzzle_question(&mut rng, Difficulty::Intermediate);
        let mut sorted = q.choices.to_vec();
        sorted.sort();
        sorted.dedup();
        assert_eq!(sorted.len(), 4, "選択肢に重複がある");
    }
}

#[test]
fn generate_question_correct_position_is_within_choices() {
    let mut rng = StdRng::seed_from_u64(21);
    for _ in 0..50 {
        let q = puzzle_question(&mut rng, Difficulty::Beginner);
        assert!(q.correct_choice_position < 4);
        let idx = q.choices[q.correct_choice_position];
        assert!(idx < BASE_SHAPE_COUNT);
    }
}

fn key_of_position(position: usize) -> char {
    char::from_digit(position as u32 + 1, 10).unwrap()
}

#[test]
fn advance_question_with_correct_position_records_success() {
    let mut game = PuzzleConnectGame::with_rng(Difficulty::Beginner, StdRng::from_entropy());
    let correct = game.current().correct_choice_position;
    game.handle_key(key_of_position(correct), 100);
    assert_eq!(game.tracker().total(), 1);
    assert_eq!(game.tracker().correct(), 1);
}

#[test]
fn advance_question_with_wrong_position_records_failure() {
    let mut game = PuzzleConnectGame::with_rng(Difficulty::Beginner, StdRng::from_entropy());
    let correct = game.current().correct_choice_position;
    let wrong = (correct + 1) % 4;
    game.handle_key(key_of_position(wrong), 100);
    assert_eq!(game.tracker().total(), 1);
    assert_eq!(game.tracker().correct(), 0);
}

/// A beginner game whose real piece is at `position` among the candidates.
fn puzzle_with_answer_at(position: usize) -> PuzzleConnectGame {
    (0..1000u64)
        .map(|seed| PuzzleConnectGame::with_rng(Difficulty::Beginner, StdRng::seed_from_u64(seed)))
        .find(|game| game.current().correct_choice_position == position)
        .expect("正解がその位置にある問題")
}

#[test]
fn number_keys_select_the_matching_choice() {
    for position in 0..4 {
        let mut game = puzzle_with_answer_at(position);
        let c = key_of_position(position);
        game.handle_key(c, 100);
        assert_eq!(game.tracker().total(), 1);
        assert_eq!(game.tracker().correct(), 1, "キー{c}で選択肢{c}を選ぶ");
    }
}

#[test]
fn other_keys_do_not_answer() {
    let mut game = PuzzleConnectGame::with_rng(Difficulty::Beginner, StdRng::from_entropy());
    for c in ['0', '5', 'a'] {
        game.handle_key(c, 100);
    }
    assert_eq!(game.tracker().total(), 0);
}

#[test]
fn answering_shows_feedback_with_the_correct_shape_name() {
    let mut game = PuzzleConnectGame::with_rng(Difficulty::Beginner, StdRng::from_entropy());
    let correct = game.current().correct_choice_position;
    let answer = SHAPE_NAMES[game.current().choices[correct]];
    game.handle_key(key_of_position((correct + 1) % 4), 100);
    let flash = game.feedback().current().expect("回答直後は正誤を表示する");
    assert_eq!(flash.verdict, Verdict::Incorrect);
    assert_eq!(flash.detail, format!("こたえ: {answer}"));
    game.update(FEEDBACK_HOLD_MS);
    assert!(game.feedback().current().is_none());
}

#[test]
fn expression_text_shows_the_expression_and_a_question_mark() {
    let game = (0..100_000u64)
        .map(|seed| MentalCalcGame::with_rng(Difficulty::Beginner, StdRng::seed_from_u64(seed)))
        .find(|game| game.current().expression == "9 + 8")
        .expect("9 + 8 の問題");
    assert_eq!(game.expression_text(), "9 + 8 = ?");
}

#[test]
fn puzzle_question_is_built_from_its_draws() {
    let draws = PuzzleDraws { piece_a: 1, piece_b: 2, angle_a_deg: 45, angle_b_deg: 90, others: [5, 0, 7], order: [2, 0, 3, 1] };
    let q = build_puzzle(Difficulty::Intermediate, draws);
    assert_eq!((q.piece_a, q.piece_b, q.angle_a_deg, q.angle_b_deg), (1, 2, 45, 90));
    assert_eq!(q.choices, [0, 2, 7, 5]);
    assert_eq!(q.correct_choice_position, 1);
}

#[test]
fn mental_question_is_built_from_its_draws() {
    let draws = CalcDraws { operator: Operator::Add, lhs: 3, rhs: 4, offsets: [-2, 1, 5], order: [3, 1, 0, 2] };
    let q = build_calc(Difficulty::Beginner, draws);
    assert_eq!(q.expression, "3 + 4");
    assert_eq!(q.choices, [12, 5, 7, 8]);
    assert_eq!(q.correct_index, 2);
}

#[test]
fn pattern_question_is_built_from_its_draws() {
    let cell = |shape_index: usize, angle_deg: u32| Cell { shape_index, angle_deg };
    let draws =
        PatternDraws { blank_index: 4, shapes: [2, 5, 7], step: 0, extras: [0, 0, 0], angles: [0, 0, 0], order: [0, 1, 2, 3] };
    let q = build_pattern(Difficulty::Intermediate, draws);
    let rows: Vec<usize> = q.cells.iter().map(|c| c.shape_index).collect();
    assert_eq!(rows, vec![2, 2, 2, 5, 5, 5, 7, 7, 7]);
    assert_eq!(q.choices, [cell(5, 0), cell(2, 0), cell(7, 0), cell(0, 0)]);
    assert_eq!(q.correct_index, 0);

    let draws =
        PatternDraws { blank_index: 2, shapes: [3, 0, 0], step: 40, extras: [0, 0, 0], angles: [0, 120, 320], order: [1, 2, 3, 0] };
    let q = build_pattern(Difficulty::Advanced, draws);
    assert_eq!(q.cells[8], cell(3, 320));
    assert_eq!(q.choices, [cell(3, 0), cell(3, 120), cell(3, 320), cell(3, 80)]);
    assert_eq!(q.correct_index, 3);
}
