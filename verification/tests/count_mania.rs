use minigames::game::count_mania::circle_image::{circled_digit, grow_within, merge_patch_items, patch_area, patches_touch, PatchItem};
use minigames::game::count_mania::layout::{
    central_region, circle_contains, hit_test, layout_circles, packing_for, size_dims, too_close, CircleSize, Placement,
    DENSE_REGION_RATIO, SIZE_TIERS,
};
use minigames::game::count_mania::ripple::{max_radius_cells_for, Ripple, RIPPLE_DURATION_MS, RIPPLE_FRAME_INTERVAL_MS};
use minigames::game::count_mania::wrong_mark::{WrongMark, WRONG_MARK_COLOR, WRONG_MARK_DURATION_MS};
use minigames::game::count_mania::{
    params, target_blink_on, ClickOutcome, CountManiaGame, MotionKind, PRESSURE_THRESHOLD_MS, ROUNDS_PER_SESSION,
    ROUND_DIFFICULTIES, ROUND_INTERVAL_MS, ROUND_MOTIONS, SESSION_DIFFICULTY, TIMEOUT_BLINK_PERIOD_MS, TIMEOUT_LIMIT_MS,
    TIMEOUT_WARNING_MS,
};
use minigames::game::feedback::{Verdict, FEEDBACK_HOLD_MS};
use minigames::game::{contains, Difficulty};
use minigames::rect::Rect;
use minigames::ui::countdown::{Phase as CountdownPhase, PHASE_DURATION_MS};
use minigames::TICK_RATE_MS;
use rand::rngs::StdRng;
use rand::SeedableRng;

const COUNTDOWN_TOTAL_MS: u64 = 2400;
const BOARD: Rect = Rect { x: 1, y: 4, width: 98, height: 30 };

const ALL: [CircleSize; 3] = [CircleSize::Large, CircleSize::Medium, CircleSize::Small];
const SIZES_LARGE_TO_SMALL: [CircleSize; 4] = [CircleSize::Huge, CircleSize::Large, CircleSize::Medium, CircleSize::Small];

fn circles(n: u8, levels: &[CircleSize]) -> Vec<(u8, CircleSize)> {
    (1..=n).map(|i| (i, levels[(i as usize - 1) % levels.len()])).collect()
}

fn assert_no_overlap(placements: &[Placement]) {
    for (i, a) in placements.iter().enumerate() {
        for b in &placements[i + 1..] {
            assert!(!a.rect.intersects(&b.rect), "円{}と円{}が重なっている", a.number, b.number);
        }
    }
}

#[test]
fn circled_digit_maps_one_to_twenty() {
    assert_eq!(circled_digit(1), Some('①'));
    assert_eq!(circled_digit(10), Some('⑩'));
    assert_eq!(circled_digit(20), Some('⑳'));
    assert_eq!(circled_digit(0), None);
    assert_eq!(circled_digit(21), None);
}

#[test]
fn size_dims_keep_large_medium_small_order_in_every_tier() {
    for tier in 0..SIZE_TIERS.len() {
        let (hw, hh) = size_dims(tier, CircleSize::Huge);
        assert!(hh > size_dims(tier, CircleSize::Large).1, "tier={tier}: 特大>大");
        assert_eq!(hw, hh * 2);
        let (lw, lh) = size_dims(tier, CircleSize::Large);
        let (mw, mh) = size_dims(tier, CircleSize::Medium);
        let (sw, sh) = size_dims(tier, CircleSize::Small);
        assert!(lh > mh && mh > sh, "tier={tier}: 大>中>小");
        assert!(sh >= 1);
        assert_eq!((lw, mw, sw), (lh * 2, mh * 2, sh * 2));
    }
}

#[test]
fn layout_places_every_circle_inside_area_without_overlap() {
    let area = Rect::new(3, 5, 78, 19);
    for (seed, (n, dense)) in [(10u8, false), (14, false), (20, true)].iter().enumerate() {
        for trial in 0..20u64 {
            let mut rng = StdRng::seed_from_u64(seed as u64 * 100 + trial);
            let input = circles(*n, &ALL);
            let placements = layout_circles(&mut rng, area, &input, *dense);
            assert_eq!(placements.len(), *n as usize, "全ての円が配置されること");
            let mut numbers: Vec<u8> = placements.iter().map(|p| p.number).collect();
            numbers.sort();
            assert_eq!(numbers, (1..=*n).collect::<Vec<_>>(), "各番号が1つずつ");
            for p in &placements {
                assert!(
                    contains(area, p.rect.x, p.rect.y) && p.rect.right() <= area.right() && p.rect.bottom() <= area.bottom(),
                    "円{}がエリア内に収まること: {:?}",
                    p.number,
                    p.rect
                );
            }
            assert_no_overlap(&placements);
        }
    }
}

#[test]
fn layout_keeps_size_order_between_levels() {
    let area = Rect::new(0, 0, 120, 40);
    let mut rng = StdRng::seed_from_u64(7);
    let input = circles(14, &ALL);
    let placements = layout_circles(&mut rng, area, &input, false);
    let height_of = |size: CircleSize| {
        let number = input.iter().find(|(_, s)| *s == size).unwrap().0;
        placements.iter().find(|p| p.number == number).unwrap().rect.height
    };
    let (l, m, s) = (height_of(CircleSize::Large), height_of(CircleSize::Medium), height_of(CircleSize::Small));
    assert!(l > m && m > s, "大{l} > 中{m} > 小{s}");
}

#[test]
fn layout_shrinks_circles_to_fit_small_area() {
    let area = Rect::new(0, 0, 40, 10);
    let mut rng = StdRng::seed_from_u64(3);
    let placements = layout_circles(&mut rng, area, &circles(20, &ALL), true);
    assert_eq!(placements.len(), 20);
    assert_no_overlap(&placements);
}

#[test]
fn dense_layout_packs_circles_closer_than_loose_layout() {
    let area = Rect::new(0, 0, 160, 50);
    let input = circles(20, &ALL);
    let spread = |dense: bool| {
        let mut total = 0u64;
        for seed in 0..10 {
            let mut rng = StdRng::seed_from_u64(seed);
            let placements = layout_circles(&mut rng, area, &input, dense);
            let bounds = placements.iter().map(|p| p.rect).reduce(|a, b| a.union(&b)).unwrap();
            total += u64::from(bounds.width) * u64::from(bounds.height);
        }
        total
    };
    assert!(spread(true) < spread(false), "密集配置の方が狭い範囲に集まること");
}

#[test]
fn dense_layout_stays_in_central_region_when_it_fits() {
    let area = Rect::new(0, 0, 160, 50);
    let region = central_region(area, DENSE_REGION_RATIO);
    assert_eq!(region, Rect::new(24, 7, 112, 35));
    for seed in 0..5 {
        let mut rng = StdRng::seed_from_u64(seed);
        let placements = layout_circles(&mut rng, area, &circles(20, &ALL), true);
        assert_eq!(placements.len(), 20);
        for p in &placements {
            assert_eq!(region.intersection(&p.rect), p.rect, "円{}が中央領域内", p.number);
        }
    }
}

#[test]
fn layout_in_too_small_area_places_what_fits_without_overlap() {
    let area = Rect::new(0, 0, 6, 2);
    let mut rng = StdRng::seed_from_u64(1);
    let placements = layout_circles(&mut rng, area, &circles(20, &ALL), true);
    assert!(!placements.is_empty() && placements.len() < 20);
    assert_no_overlap(&placements);
    assert!(layout_circles(&mut rng, Rect::new(0, 0, 0, 0), &circles(3, &ALL), false).is_empty());
}

#[test]
fn loose_layout_keeps_gap_between_circles() {
    let area = Rect::new(0, 0, 120, 40);
    let mut rng = StdRng::seed_from_u64(11);
    let placements = layout_circles(&mut rng, area, &circles(10, &ALL), false);
    let loose = packing_for(false);
    for (i, a) in placements.iter().enumerate() {
        for b in &placements[i + 1..] {
            assert!(!too_close(a.rect, b.rect, &loose), "円{}と円{}の間隔", a.number, b.number);
        }
    }
}

#[test]
fn circle_contains_center_but_not_corners() {
    let rect = Rect::new(10, 5, 12, 6);
    assert!(circle_contains(rect, 16, 8), "中心付近は円の内側");
    assert!(circle_contains(rect, 15, 7), "中心付近は円の内側");
    assert!(!circle_contains(rect, 10, 5), "左上の角は円の外側");
    assert!(!circle_contains(rect, 21, 10), "右下の角は円の外側");
    assert!(!circle_contains(rect, 9, 8), "矩形の外は円の外側");
    assert!(!circle_contains(rect, 22, 8), "矩形の外は円の外側");
}

#[test]
fn circle_contains_every_cell_of_smallest_circle() {
    let rect = Rect::new(0, 0, 2, 1);
    assert!(circle_contains(rect, 0, 0));
    assert!(circle_contains(rect, 1, 0));
}

#[test]
fn hit_test_returns_number_of_clicked_visible_circle() {
    let placements = vec![
        Placement { number: 1, rect: Rect::new(0, 0, 10, 5) },
        Placement { number: 2, rect: Rect::new(20, 0, 10, 5) },
    ];
    assert_eq!(hit_test(&placements, |_| true, 5, 2), Some(1));
    assert_eq!(hit_test(&placements, |_| true, 25, 2), Some(2));
    assert_eq!(hit_test(&placements, |_| true, 15, 2), None, "円の間は何も無い");
    assert_eq!(hit_test(&placements, |_| true, 0, 0), None, "円の角(外側)は何も無い");
    assert_eq!(hit_test(&placements, |n| n != 1, 5, 2), None, "消えた円はクリックできない");
}

#[test]
fn central_region_keeps_at_least_one_cell() {
    assert_eq!(central_region(Rect::new(3, 4, 1, 1), DENSE_REGION_RATIO), Rect::new(3, 4, 1, 1));
    assert_eq!(central_region(Rect::new(0, 0, 10, 3), DENSE_REGION_RATIO), Rect::new(1, 0, 7, 2));
}

// --- the cross and the ripple ---

#[test]
fn new_mark_starts_at_clicked_cell() {
    let mark = WrongMark::new(12, 7);
    assert_eq!(mark.center(), (12, 7));
}

#[test]
fn mark_stays_until_duration_then_disappears() {
    let mark = WrongMark::new(3, 4);
    let almost = mark.advanced(WRONG_MARK_DURATION_MS - 1).expect("持続時間の直前はまだ残る");
    assert_eq!(almost.center(), (3, 4), "中心は動かない");
    assert!(almost.advanced(1).is_none(), "持続時間で消える");
    assert!(mark.advanced(WRONG_MARK_DURATION_MS * 3).is_none());
}

#[test]
fn mark_duration_is_longer_than_ripple_and_a_few_seconds_at_most() {
    assert!(WRONG_MARK_DURATION_MS > RIPPLE_DURATION_MS);
    assert!(WRONG_MARK_DURATION_MS <= 3000);
}

#[test]
fn mark_color_is_reddish() {
    let [r, g, b] = WRONG_MARK_COLOR;
    assert!(r >= 200 && r > g && r > b, "赤系であること: {r},{g},{b}");
}

#[test]
fn frame_interval_is_coarser_than_tick() {
    assert!(RIPPLE_FRAME_INTERVAL_MS > TICK_RATE_MS);
    assert!(RIPPLE_FRAME_INTERVAL_MS < RIPPLE_DURATION_MS);
}

#[test]
fn ripple_frame_counts_up_every_interval() {
    let ripple = Ripple::new(3, 4, CircleSize::Small);
    assert_eq!(ripple.frame(), 0);
    assert_eq!(ripple.advanced(RIPPLE_FRAME_INTERVAL_MS - 1).unwrap().frame(), 0);
    assert_eq!(ripple.advanced(RIPPLE_FRAME_INTERVAL_MS).unwrap().frame(), 1);
    let last = ripple.advanced(RIPPLE_DURATION_MS - 1).unwrap();
    let frames = (RIPPLE_DURATION_MS / RIPPLE_FRAME_INTERVAL_MS) as u32;
    assert_eq!(last.frame(), frames - 1, "持続時間の中のコマ数");
    assert!(ripple.advanced(RIPPLE_DURATION_MS).is_none());
}

#[test]
fn ripple_keeps_max_radius_of_clicked_circle_size() {
    for size in SIZES_LARGE_TO_SMALL {
        let ripple = Ripple::new(4, 2, size);
        assert_eq!(ripple.max_radius_cells(), max_radius_cells_for(size));
        let later = ripple.advanced(RIPPLE_DURATION_MS / 2).unwrap();
        assert_eq!(later.max_radius_cells(), ripple.max_radius_cells());
        assert_eq!(later.center(), (4, 2));
    }
}

#[test]
fn larger_circle_gives_larger_max_radius() {
    let radii: Vec<u64> = SIZES_LARGE_TO_SMALL.iter().map(|&size| max_radius_cells_for(size)).collect();
    assert!(radii.windows(2).all(|w| w[0] > w[1]), "特大>大>中>小の順に大きく広がる: {radii:?}");
    assert!(
        max_radius_cells_for(CircleSize::Huge) >= max_radius_cells_for(CircleSize::Small) * 2,
        "特大の波紋は小の2倍以上: {radii:?}"
    );
    assert!(radii.iter().all(|&r| r > 0));
}

// --- constants ---

#[test]
fn countdown_total_matches_four_phases() {
    assert_eq!(PHASE_DURATION_MS * 4, COUNTDOWN_TOTAL_MS);
}

#[test]
fn pressure_and_timeout_thresholds_match_spec() {
    assert_eq!(PRESSURE_THRESHOLD_MS, 5000);
    assert_eq!(TIMEOUT_LIMIT_MS, 12000);
    assert!(TIMEOUT_WARNING_MS >= 2000);
    assert!(TIMEOUT_WARNING_MS <= 3000);
    assert!(PRESSURE_THRESHOLD_MS < TIMEOUT_LIMIT_MS - TIMEOUT_WARNING_MS, "背景の明滅が先に始まり、その後で円が点滅する");
}

#[test]
fn target_does_not_blink_before_warning() {
    assert!(!target_blink_on(0));
    assert!(!target_blink_on(PRESSURE_THRESHOLD_MS));
    assert!(!target_blink_on(TIMEOUT_LIMIT_MS - TIMEOUT_WARNING_MS - 1));
}

#[test]
fn target_blinks_periodically_during_warning() {
    let start = TIMEOUT_LIMIT_MS - TIMEOUT_WARNING_MS;
    assert!(target_blink_on(start), "警告が始まったらすぐ強調する");
    assert!(!target_blink_on(start + TIMEOUT_BLINK_PERIOD_MS / 2), "半周期後は元の見た目に戻る");
    assert!(target_blink_on(start + TIMEOUT_BLINK_PERIOD_MS), "1周期で強調に戻る");
    let mut toggles = 0;
    let mut last = target_blink_on(start);
    let mut t = start;
    while t < TIMEOUT_LIMIT_MS {
        let now = target_blink_on(t);
        toggles += usize::from(now != last);
        last = now;
        t += TICK_RATE_MS;
    }
    assert!(toggles >= 4, "警告中に何度も点滅する: {toggles}");
}

#[test]
fn round_difficulties_rise_from_beginner_to_advanced() {
    assert_eq!(ROUNDS_PER_SESSION, 5);
    assert_eq!(
        ROUND_DIFFICULTIES,
        [Difficulty::Beginner, Difficulty::Intermediate, Difficulty::Advanced, Difficulty::Advanced, Difficulty::Advanced]
    );
    assert_eq!(ROUND_DIFFICULTIES.len(), ROUNDS_PER_SESSION as usize);
}

#[test]
fn round_motion_table_marks_rounds_four_and_five_for_scattering() {
    assert_eq!(
        ROUND_MOTIONS,
        [MotionKind::Still, MotionKind::Still, MotionKind::Still, MotionKind::Scatter, MotionKind::Scatter]
    );
}

#[test]
fn params_match_spec_for_each_difficulty() {
    let beginner = params(Difficulty::Beginner);
    assert_eq!(beginner.max_number, 10);
    assert_eq!(beginner.size_levels, vec![CircleSize::Huge, CircleSize::Large, CircleSize::Medium]);
    assert_eq!(beginner.lives, 3);
    assert!(!beginner.dense);
    let intermediate = params(Difficulty::Intermediate);
    assert_eq!(intermediate.max_number, 14);
    assert_eq!(intermediate.size_levels, SIZES_LARGE_TO_SMALL.to_vec());
    assert_eq!(intermediate.lives, 2);
    assert!(!intermediate.dense);
    let advanced = params(Difficulty::Advanced);
    assert_eq!(advanced.max_number, 20);
    assert_eq!(advanced.size_levels, SIZES_LARGE_TO_SMALL.to_vec());
    assert_eq!(advanced.lives, 2);
    assert!(advanced.dense, "上級は密集配置");
}

#[test]
fn every_difficulty_uses_huge_circles() {
    for difficulty in [Difficulty::Beginner, Difficulty::Intermediate, Difficulty::Advanced] {
        assert!(params(difficulty).size_levels.contains(&CircleSize::Huge), "{difficulty:?}: 特大の円を使う");
    }
}

#[test]
fn fail_latency_is_positive_and_grows_with_difficulty() {
    let b = params(Difficulty::Beginner).fail_latency_ms;
    let i = params(Difficulty::Intermediate).fail_latency_ms;
    let a = params(Difficulty::Advanced).fail_latency_ms;
    assert!(b > 0 && b <= i && i <= a);
}

// --- the game ---

fn playing_game(seed: u64) -> CountManiaGame {
    let mut game = CountManiaGame::with_rng(StdRng::seed_from_u64(seed));
    game.update(COUNTDOWN_TOTAL_MS);
    assert!(game.countdown().is_none());
    game
}

fn center_of(game: &mut CountManiaGame, number: u8) -> (u16, u16) {
    let placements = game.placements(BOARD);
    let p = placements.iter().find(|p| p.number == number).expect("配置された円");
    (p.rect.x + p.rect.width / 2, p.rect.y + p.rect.height / 2)
}

fn click_circle(game: &mut CountManiaGame, number: u8) -> ClickOutcome {
    let (column, row) = center_of(game, number);
    game.handle_mouse(BOARD, column, row)
}

fn clear_round(game: &mut CountManiaGame) {
    let max = game.round_params().max_number;
    while game.round().next <= max {
        let next = game.round().next;
        assert_eq!(click_circle(game, next), ClickOutcome::Correct { number: next });
    }
}

fn pass_interval(game: &mut CountManiaGame) {
    game.update(ROUND_INTERVAL_MS);
    game.update(COUNTDOWN_TOTAL_MS);
}

#[test]
fn new_game_starts_round1_with_countdown() {
    let game = CountManiaGame::with_rng(StdRng::seed_from_u64(1));
    assert!(game.countdown().is_some());
    assert_eq!(game.round_difficulty(), Difficulty::Beginner);
    assert_eq!(game.current_round_number(), 1);
}

#[test]
fn clicks_during_countdown_are_ignored() {
    let mut game = CountManiaGame::with_rng(StdRng::seed_from_u64(2));
    assert_eq!(click_circle(&mut game, 1), ClickOutcome::Ignored);
    assert_eq!(game.round().next, 1);
}

#[test]
fn new_game_starts_with_full_lives_and_next_number_one() {
    let game = playing_game(3);
    assert_eq!(game.round().next, 1);
    assert_eq!(game.round().lives, 3);
    assert_eq!(game.round().circles.len(), 10);
    assert_eq!(game.tracker().total(), 0);
    assert!(!game.is_finished());
}

#[test]
fn new_round_uses_every_size_level() {
    for seed in 0..5 {
        let game = CountManiaGame::with_rng(StdRng::seed_from_u64(seed));
        let numbers: Vec<u8> = game.round().circles.iter().map(|c| c.number).collect();
        assert_eq!(numbers, (1..=10).collect::<Vec<_>>());
        for level in [CircleSize::Huge, CircleSize::Large, CircleSize::Medium] {
            assert!(game.round().circles.iter().any(|c| c.size == level));
        }
        assert!(game.round().circles.iter().all(|c| c.size != CircleSize::Small));
    }
}

#[test]
fn clicking_next_number_removes_it_and_advances() {
    let mut game = playing_game(4);
    assert_eq!(click_circle(&mut game, 1), ClickOutcome::Correct { number: 1 });
    assert_eq!(game.round().next, 2);
    assert!(!game.is_visible(1), "押した円は消える");
    assert!(game.is_visible(2));
    assert_eq!(game.round().lives, 3, "正解ではライフは減らない");
    assert_eq!(game.tracker().total(), 0, "ラウンド途中は記録しない");
    let ripple = game.ripple().expect("正解の位置に波紋");
    assert_eq!(ripple.center(), center_of(&mut game, 1));
}

#[test]
fn clearing_all_numbers_records_success_with_elapsed_time() {
    let mut game = playing_game(5);
    game.update(1500);
    clear_round(&mut game);
    assert_eq!(game.tracker().total(), 1);
    assert_eq!(game.tracker().correct(), 1);
    assert_eq!(game.tracker().latencies_ms(), &vec![1500]);
    let flash = game.feedback().current().unwrap();
    assert_eq!(flash.verdict, Verdict::Correct);
    assert_eq!(flash.detail, "CLEAR 1.5秒");
    assert_eq!(game.interval_ms(), Some(ROUND_INTERVAL_MS));
}

#[test]
fn clicking_wrong_number_loses_a_life_and_keeps_next() {
    let mut game = playing_game(6);
    assert_eq!(click_circle(&mut game, 5), ClickOutcome::Wrong { number: 5 });
    assert_eq!(game.round().lives, 2);
    assert_eq!(game.round().next, 1, "次に押す数字は変わらない");
    assert!(game.is_visible(5), "不正解の円は消えない");
    assert_eq!(game.tracker().total(), 0);
    assert_eq!(game.feedback().current().unwrap().detail, "ライフ -1");
    assert_eq!(game.wrong_mark().unwrap().center(), center_of(&mut game, 5));
}

#[test]
fn losing_all_lives_ends_the_session_as_game_over() {
    let mut game = playing_game(7);
    click_circle(&mut game, 1);
    for _ in 0..3 {
        click_circle(&mut game, 5);
    }
    assert!(game.is_game_over());
    assert_eq!(game.tracker().total(), 1, "ライフ0で即ラウンド終了");
    assert_eq!(game.tracker().correct(), 0);
    assert_eq!(game.tracker().latencies_ms(), &vec![params(Difficulty::Beginner).fail_latency_ms]);
    assert_eq!(game.feedback().current().unwrap().detail, "ライフが尽きた");
    assert!(!game.is_finished(), "フィードバック表示中はまだ終了しない");
    assert!(game.interval_ms().is_none(), "次のラウンドへの待ち時間には入らない");
    assert_eq!(click_circle(&mut game, 2), ClickOutcome::Ignored, "GAME OVER後のクリックは無視される");
    game.update(FEEDBACK_HOLD_MS);
    assert!(game.is_finished(), "フィードバックが消えたらセッション終了");
    assert_eq!(game.tracker().total(), 1);
}

#[test]
fn clicking_empty_cell_changes_nothing() {
    let mut game = playing_game(8);
    let placements = game.placements(BOARD);
    let mut empty = None;
    'search: for row in BOARD.y..BOARD.bottom() {
        for column in BOARD.x..BOARD.right() {
            if placements.iter().all(|p| !circle_contains(p.rect, column, row)) {
                empty = Some((column, row));
                break 'search;
            }
        }
    }
    let (column, row) = empty.expect("空いているセルがある");
    assert_eq!(game.handle_mouse(BOARD, column, row), ClickOutcome::Missed);
    assert_eq!(game.round().lives, 3);
    assert_eq!(game.round().next, 1);
    assert_eq!(game.handle_mouse(BOARD, 0, 0), ClickOutcome::Ignored, "盤面の外は無視");
}

#[test]
fn clicks_are_ignored_during_interval_then_next_round_starts() {
    let mut game = playing_game(9);
    clear_round(&mut game);
    assert!(game.interval_ms().is_some());
    assert_eq!(click_circle(&mut game, 1), ClickOutcome::Ignored);
    assert_eq!(game.tracker().total(), 1);
    game.update(ROUND_INTERVAL_MS);
    assert!(game.interval_ms().is_none());
    assert!(game.countdown().is_some(), "次のラウンドもカウントダウンから");
    assert_eq!(game.round().next, 1, "新しいラウンドは1から");
    assert_eq!(game.round().lives, params(Difficulty::Intermediate).lives);
    assert_eq!(game.round().elapsed_ms, 0);
    assert_eq!(game.round().circles.len(), 14);
    assert_eq!(game.round_difficulty(), Difficulty::Intermediate);
}

#[test]
fn session_finishes_after_five_rounds() {
    let mut game = playing_game(10);
    for round in 0..ROUNDS_PER_SESSION {
        assert!(!game.is_finished(), "ラウンド{round}開始時点では終わっていない");
        assert_eq!(game.current_round_number(), round + 1);
        clear_round(&mut game);
        if round + 1 < ROUNDS_PER_SESSION {
            pass_interval(&mut game);
        }
    }
    assert!(game.is_finished());
    assert_eq!(SESSION_DIFFICULTY, Difficulty::Advanced);
    assert_eq!(game.tracker().total(), ROUNDS_PER_SESSION);
    assert_eq!(game.tracker().correct(), ROUNDS_PER_SESSION);
    assert_eq!(game.current_round_number(), ROUNDS_PER_SESSION);
    assert_eq!(click_circle(&mut game, 1), ClickOutcome::Ignored);
}

#[test]
fn waiting_too_long_is_a_time_out() {
    let mut game = playing_game(11);
    game.update(TIMEOUT_LIMIT_MS - 1);
    assert!(!game.is_game_over());
    game.update(1);
    assert!(game.is_game_over());
    assert_eq!(game.tracker().total(), 1);
    assert_eq!(game.tracker().correct(), 0);
    assert_eq!(game.feedback().current().unwrap().detail, "時間切れ");
    assert_eq!(game.round().time_since_target_ms, 0);
    game.update(TIMEOUT_LIMIT_MS);
    assert_eq!(game.tracker().total(), 1, "記録は1回だけ");
}

#[test]
fn correct_click_restarts_the_wait() {
    let mut game = playing_game(12);
    game.update(TIMEOUT_LIMIT_MS - 100);
    click_circle(&mut game, 1);
    assert_eq!(game.round().time_since_target_ms, 0);
    game.update(200);
    assert!(!game.is_game_over());
}

#[test]
fn layout_is_kept_for_the_same_board_and_round() {
    let mut game = playing_game(13);
    let first = game.placements(BOARD);
    let second = game.placements(BOARD);
    assert_eq!(first, second);
    assert_eq!(first.len(), 10);
}

// --- random choices ---

#[test]
fn shuffled_sizes_are_not_always_dealt_in_turn() {
    let dealt: Vec<CircleSize> = (0..10).map(|i| [CircleSize::Huge, CircleSize::Large, CircleSize::Medium][i % 3]).collect();
    let shuffled_somewhere = (0..10).any(|seed| {
        let game = CountManiaGame::with_rng(StdRng::seed_from_u64(seed));
        game.round().circles.iter().map(|c| c.size).collect::<Vec<_>>() != dealt
    });
    assert!(shuffled_somewhere, "サイズの並びはシャッフルされる");
}

#[test]
fn layouts_differ_between_generators() {
    let area = Rect::new(0, 0, 120, 40);
    let input = circles(10, &ALL);
    let first = layout_circles(&mut StdRng::seed_from_u64(1), area, &input, false);
    let differs = (2..10).any(|seed| layout_circles(&mut StdRng::seed_from_u64(seed), area, &input, false) != first);
    assert!(differs, "置き方はランダム");
}

// --- patches ---



#[test]
fn patch_area_leaves_out_the_two_leftmost_columns() {
    assert_eq!(patch_area(Rect::new(5, 3, 20, 10)), Rect::new(7, 3, 18, 10));
    assert_eq!(patch_area(Rect::new(5, 3, 1, 10)), Rect::new(6, 3, 0, 10));
}

#[test]
fn patches_touch_when_overlapping_or_side_by_side() {
    let a = Rect::new(0, 0, 5, 3);
    assert!(patches_touch(a, Rect::new(4, 0, 3, 3)), "重なる");
    assert!(patches_touch(a, Rect::new(5, 1, 3, 3)), "右に隣り合う");
    assert!(patches_touch(Rect::new(5, 1, 3, 3), a), "左に隣り合う");
    assert!(!patches_touch(a, Rect::new(6, 0, 3, 3)), "1列空いていれば触れない");
    assert!(!patches_touch(a, Rect::new(0, 3, 5, 3)), "上下に接するだけなら触れない");
}

#[test]
fn grow_within_prefers_right_then_down_then_up_then_left() {
    let area = Rect::new(0, 0, 10, 10);
    assert_eq!(grow_within(Rect::new(2, 2, 3, 3), area), Some(Rect::new(2, 2, 4, 3)));
    assert_eq!(grow_within(Rect::new(7, 2, 3, 3), area), Some(Rect::new(7, 2, 3, 4)));
    assert_eq!(grow_within(Rect::new(7, 7, 3, 3), area), Some(Rect::new(7, 6, 3, 4)));
    assert_eq!(grow_within(Rect::new(7, 0, 3, 10), area), Some(Rect::new(6, 0, 4, 10)));
    assert_eq!(grow_within(area, area), None);
}

#[test]
fn touching_patches_merge_and_empty_ones_drop() {
    let items = vec![
        PatchItem { rect: Rect::new(0, 0, 5, 3), effects: true },
        PatchItem { rect: Rect::new(20, 0, 3, 3), effects: false },
        PatchItem { rect: Rect::new(5, 1, 3, 3), effects: false },
        PatchItem { rect: Rect::new(40, 0, 0, 3), effects: true },
    ];
    let merged = merge_patch_items(&items);
    assert_eq!(
        merged,
        vec![
            PatchItem { rect: Rect::new(0, 0, 8, 4), effects: true },
            PatchItem { rect: Rect::new(20, 0, 3, 3), effects: false },
        ]
    );
}

// --- more of the round's flow ---

#[test]
fn countdown_advances_3_2_1_go_and_ends_after_total() {
    let mut game = CountManiaGame::with_rng(StdRng::seed_from_u64(20));
    game.update(PHASE_DURATION_MS);
    assert_eq!(game.countdown().unwrap().phase(), Some(CountdownPhase::Two));
    game.update(PHASE_DURATION_MS);
    assert_eq!(game.countdown().unwrap().phase(), Some(CountdownPhase::One));
    game.update(PHASE_DURATION_MS);
    assert_eq!(game.countdown().unwrap().phase(), Some(CountdownPhase::Go));
    game.update(PHASE_DURATION_MS - 1);
    assert!(game.countdown().is_some(), "GO!!の表示時間が終わるまではカウントダウン中");
    game.update(1);
    assert!(game.countdown().is_none(), "GO!!が終わったらプレイ中");
}

#[test]
fn round_time_does_not_advance_during_countdown() {
    let mut game = CountManiaGame::with_rng(StdRng::seed_from_u64(21));
    game.update(COUNTDOWN_TOTAL_MS - 1);
    assert_eq!(game.round().elapsed_ms, 0, "カウントダウン中はラウンドの時間を数えない");
    assert_eq!(game.round().time_since_target_ms, 0);
}

#[test]
fn countdown_does_not_count_toward_time_out() {
    let mut game = CountManiaGame::with_rng(StdRng::seed_from_u64(22));
    game.update(TIMEOUT_LIMIT_MS);
    assert!(!game.is_game_over());
    assert!(game.countdown().is_none());
    assert_eq!(game.round().time_since_target_ms, 0);
}

#[test]
fn game_over_does_not_start_countdown() {
    let mut game = playing_game(23);
    for _ in 0..3 {
        click_circle(&mut game, 5);
    }
    assert!(game.is_game_over());
    game.update(ROUND_INTERVAL_MS);
    assert!(game.countdown().is_none());
    assert!(game.interval_ms().is_none());
    assert_eq!(game.round_serial(), 0);
}

#[test]
fn clicking_removed_circle_does_nothing() {
    let mut game = playing_game(24);
    let (column, row) = center_of(&mut game, 1);
    assert_eq!(game.handle_mouse(BOARD, column, row), ClickOutcome::Correct { number: 1 });
    assert_eq!(game.handle_mouse(BOARD, column, row), ClickOutcome::Missed, "消えた円の跡は何もない");
    assert_eq!(game.round().lives, 3);
    assert_eq!(game.round().next, 2);
}

#[test]
fn elapsed_time_does_not_advance_during_interval() {
    let mut game = playing_game(25);
    game.update(700);
    clear_round(&mut game);
    game.update(ROUND_INTERVAL_MS - 1);
    assert_eq!(game.round().elapsed_ms, 700);
    assert_eq!(game.tracker().total(), 1);
}

#[test]
fn wrong_or_empty_click_does_not_start_ripple() {
    let mut game = playing_game(26);
    click_circle(&mut game, 4);
    assert!(game.ripple().is_none());
    assert!(game.wrong_mark().is_some());
}

#[test]
fn update_advances_ripple_and_removes_it_after_duration() {
    let mut game = playing_game(27);
    click_circle(&mut game, 1);
    game.update(RIPPLE_DURATION_MS - 1);
    assert_eq!(game.ripple().unwrap().elapsed_ms(), RIPPLE_DURATION_MS - 1);
    game.update(1);
    assert!(game.ripple().is_none());
}

#[test]
fn new_correct_click_replaces_previous_ripple() {
    let mut game = playing_game(28);
    click_circle(&mut game, 1);
    game.update(100);
    click_circle(&mut game, 2);
    let ripple = game.ripple().unwrap();
    assert_eq!(ripple.elapsed_ms(), 0);
    assert_eq!(ripple.center(), center_of(&mut game, 2));
}

#[test]
fn ripple_size_follows_clicked_circle_size() {
    let mut game = playing_game(29);
    let size = game.round().circles[0].size;
    click_circle(&mut game, 1);
    assert_eq!(game.ripple().unwrap().max_radius_cells(), max_radius_cells_for(size));
}

#[test]
fn update_advances_time_since_target_only_while_playing() {
    let mut game = playing_game(30);
    game.update(300);
    assert_eq!(game.round().time_since_target_ms, 300);
    clear_round(&mut game);
    assert_eq!(game.round().time_since_target_ms, 0);
    game.update(300);
    assert_eq!(game.round().time_since_target_ms, 0, "待ち時間中は進まない");
}

#[test]
fn wrong_click_keeps_time_since_target_while_lives_remain() {
    let mut game = playing_game(31);
    game.update(400);
    click_circle(&mut game, 6);
    assert_eq!(game.round().time_since_target_ms, 400);
}

#[test]
fn game_over_resets_time_since_target() {
    let mut game = playing_game(32);
    game.update(400);
    for _ in 0..3 {
        click_circle(&mut game, 6);
    }
    assert!(game.is_game_over());
    assert_eq!(game.round().time_since_target_ms, 0);
}

#[test]
fn wrong_mark_disappears_after_duration() {
    let mut game = playing_game(33);
    click_circle(&mut game, 3);
    game.update(WRONG_MARK_DURATION_MS - 1);
    assert!(game.wrong_mark().is_some());
    game.update(1);
    assert!(game.wrong_mark().is_none());
}

#[test]
fn new_wrong_click_moves_mark_and_restarts_it() {
    let mut game = playing_game(34);
    click_circle(&mut game, 3);
    game.update(500);
    click_circle(&mut game, 4);
    let mark = game.wrong_mark().unwrap();
    assert_eq!(mark.elapsed_ms(), 0);
    assert_eq!(mark.center(), center_of(&mut game, 4));
}

#[test]
fn correct_click_clears_the_cross() {
    let mut game = playing_game(35);
    click_circle(&mut game, 3);
    click_circle(&mut game, 1);
    assert!(game.wrong_mark().is_none());
    assert!(game.ripple().is_some());
}

#[test]
fn time_out_does_not_happen_during_round_interval() {
    let mut game = playing_game(36);
    clear_round(&mut game);
    game.update(ROUND_INTERVAL_MS - 1);
    game.update(1);
    assert!(!game.is_game_over(), "待ち時間中は時間切れにならない");
    assert!(game.interval_ms().is_none(), "次のラウンドが始まる");
    assert_eq!(game.round().time_since_target_ms, 0);
}

#[test]
fn each_round_uses_params_of_its_difficulty() {
    let mut game = playing_game(37);
    for (index, difficulty) in ROUND_DIFFICULTIES.into_iter().enumerate() {
        let expected = params(difficulty);
        assert_eq!(game.round_difficulty(), difficulty);
        assert_eq!(game.round().circles.len(), expected.max_number as usize);
        assert_eq!(game.round().lives, expected.lives);
        assert_eq!(game.round_params(), expected);
        clear_round(&mut game);
        if index + 1 < ROUNDS_PER_SESSION as usize {
            assert_eq!(game.round_difficulty(), difficulty, "次のラウンドが始まるまで難易度は変わらない");
            pass_interval(&mut game);
        }
    }
}

#[test]
fn overlapping_click_hits_the_smaller_later_circle() {
    let mut game = playing_game(38);
    let placements = vec![
        Placement { number: 1, rect: Rect::new(10, 5, 14, 7) },
        Placement { number: 2, rect: Rect::new(10, 7, 6, 3) },
    ];
    assert_eq!(game.click_at(BOARD, 12, 8, &placements), ClickOutcome::Correct { number: 1 }, "先に並ぶ円が当たる");
    assert_eq!(game.click_at(BOARD, 12, 8, &placements), ClickOutcome::Correct { number: 2 }, "消えた円の下の円が当たる");
}

#[test]
fn board_fish_covers_three_cells_in_a_row() {
    use_board_fish();
}

fn use_board_fish() {
    let fish = minigames::game::count_mania::circle_image::BoardFish { x: 4, y: 9, facing_right: true, color: [1, 2, 3] };
    assert_eq!(fish.rect(), Rect::new(4, 9, 3, 1));
}

fn item(x: u16, y: u16, width: u16, height: u16) -> PatchItem {
    PatchItem { rect: Rect::new(x, y, width, height), effects: false }
}

fn merged_rects(items: &[PatchItem]) -> Vec<Rect> {
    let mut rects: Vec<Rect> = merge_patch_items(&items.to_vec()).into_iter().map(|item| item.rect).collect();
    rects.sort_by_key(|rect| (rect.y, rect.x));
    rects
}

#[test]
fn merge_keeps_far_patches_apart_and_joins_overlapping_or_touching_ones() {
    assert_eq!(
        merged_rects(&[item(5, 2, 3, 1), item(20, 2, 3, 1)]),
        vec![Rect::new(5, 2, 3, 1), Rect::new(20, 2, 3, 1)],
        "離れたパッチは別々"
    );
    assert_eq!(merged_rects(&[item(5, 2, 4, 2), item(7, 3, 4, 1)]), vec![Rect::new(5, 2, 6, 2)], "重なるパッチは1枚にまとめる");
    assert_eq!(merged_rects(&[item(5, 2, 1, 1), item(6, 2, 3, 1)]), vec![Rect::new(5, 2, 4, 1)]);
    assert_eq!(
        merged_rects(&[item(5, 2, 3, 1), item(5, 3, 3, 1)]),
        vec![Rect::new(5, 2, 3, 1), Rect::new(5, 3, 3, 1)],
        "上下に隣り合うだけなら別々"
    );
    assert_eq!(merged_rects(&[item(0, 0, 4, 1), item(0, 3, 1, 1), item(2, 0, 1, 4)]), vec![Rect::new(0, 0, 4, 4)]);
    let effects = PatchItem { rect: Rect::new(5, 2, 3, 1), effects: true };
    assert_eq!(
        merge_patch_items(&vec![effects, item(7, 2, 3, 1)]),
        vec![PatchItem { rect: Rect::new(5, 2, 5, 1), effects: true }]
    );
}

#[test]
fn merged_patches_are_never_more_than_the_patches_with_cells() {
    let items = vec![item(0, 0, 2, 1), item(1, 0, 0, 3), item(30, 5, 3, 2), item(2, 0, 2, 1)];
    let merged = merge_patch_items(&items);
    assert_eq!(merged.len(), 2);
    assert!(merged.len() <= items.iter().filter(|p| !p.rect.is_empty()).count());
    assert_eq!(merged[0].rect, Rect::new(0, 0, 4, 1), "2枚の和");
}

#[test]
fn left_out_circles_had_no_room() {
    let area = Rect::new(0, 0, 6, 2);
    let mut rng = StdRng::seed_from_u64(1);
    let placements = layout_circles(&mut rng, area, &circles(20, &ALL), true);
    assert!(placements.len() < 20);
    let smallest = size_dims(SIZE_TIERS.len() - 1, CircleSize::Small);
    for y in area.y..area.bottom() {
        for x in area.x..area.right() {
            let rect = Rect::new(x, y, smallest.0, smallest.1);
            let fits = rect.right() <= area.right() && rect.bottom() <= area.bottom();
            assert!(!fits || placements.iter().any(|p| p.rect.intersects(&rect)), "({x},{y})に小さい円の空きが残っている");
        }
    }
}
