use rand::rngs::SmallRng;
use rand::SeedableRng;
use smart_leds::RGB8;
use snake_duel::{duration, nth_free_cell, Coordinate, Direction, GameState, Player, Velocity, LED_COUNT};

const BLACK: RGB8 = RGB8 { r: 0, g: 0, b: 0 };
const GREEN: RGB8 = RGB8 { r: 0, g: 0x80, b: 0 };
const RED: RGB8 = RGB8 { r: 0xff, g: 0, b: 0 };
const BLUE: RGB8 = RGB8 { r: 0, g: 0, b: 0xff };

fn rng(seed: u64) -> SmallRng {
    SmallRng::seed_from_u64(seed)
}

fn game(body: &[Coordinate], v: Velocity, food: Coordinate, player: Player, level: u32) -> GameState {
    GameState::with_body(&body.to_vec(), v, food, player, level).expect("a valid game")
}

fn well_formed(g: &GameState) -> bool {
    let body = g.snake();
    let in_bounds = body.iter().all(|c| c.0 < 6 && c.1 < 6);
    let distinct = body.iter().enumerate().all(|(i, a)| body.iter().skip(i + 1).all(|b| a != b));
    let food = g.food();
    in_bounds && distinct && food.0 < 6 && food.1 < 6 && !body.contains(&food) && !body.is_empty()
}

#[test]
fn new_game_starts_with_one_cell_heading_right() {
    let mut r = rng(1);
    let g = GameState::new(&mut r);
    assert_eq!(g.snake(), vec![Coordinate(1, 3)]);
    assert_eq!(g.velocity(), Velocity::Right);
    assert_eq!(g.player, Player::P2);
    assert_eq!(g.level(), 0);
    assert_ne!(g.food(), Coordinate(1, 3));
    assert!(well_formed(&g));
}

#[test]
fn coordinate_apply_moves_and_stops_at_edges() {
    assert_eq!(Coordinate(2, 3).apply(Velocity::Up), Ok(Coordinate(2, 4)));
    assert_eq!(Coordinate(2, 3).apply(Velocity::Down), Ok(Coordinate(2, 2)));
    assert_eq!(Coordinate(2, 3).apply(Velocity::Left), Ok(Coordinate(1, 3)));
    assert_eq!(Coordinate(2, 3).apply(Velocity::Right), Ok(Coordinate(3, 3)));
    assert_eq!(Coordinate(0, 0).apply(Velocity::Down), Err(()));
    assert_eq!(Coordinate(0, 0).apply(Velocity::Left), Err(()));
    assert_eq!(Coordinate(5, 5).apply(Velocity::Up), Err(()));
    assert_eq!(Coordinate(5, 5).apply(Velocity::Right), Err(()));
}

#[test]
fn velocity_apply_turns_a_quarter() {
    let cw = [Velocity::Up, Velocity::Right, Velocity::Down, Velocity::Left];
    for i in 0..4 {
        assert_eq!(cw[i].apply(Direction::CW), cw[(i + 1) % 4]);
        assert_eq!(cw[(i + 1) % 4].apply(Direction::CCW), cw[i]);
    }
}

#[test]
fn with_body_rejects_invalid_parts() {
    let ok = [Coordinate(2, 2), Coordinate(1, 2)];
    assert!(GameState::with_body(&ok.to_vec(), Velocity::Right, Coordinate(0, 0), Player::P1, 0).is_some());
    assert!(GameState::with_body(&vec![], Velocity::Right, Coordinate(0, 0), Player::P1, 0).is_none());
    let dup = vec![Coordinate(2, 2), Coordinate(2, 2)];
    assert!(GameState::with_body(&dup, Velocity::Right, Coordinate(0, 0), Player::P1, 0).is_none());
    let outside = vec![Coordinate(6, 2)];
    assert!(GameState::with_body(&outside, Velocity::Right, Coordinate(0, 0), Player::P1, 0).is_none());
    assert!(GameState::with_body(&ok.to_vec(), Velocity::Right, Coordinate(1, 2), Player::P1, 0).is_none());
    assert!(GameState::with_body(&ok.to_vec(), Velocity::Right, Coordinate(0, 6), Player::P1, 0).is_none());
    let long: Vec<Coordinate> = (0..6).map(|x| Coordinate(x, 0)).chain((0..4).map(|x| Coordinate(x, 1))).collect();
    assert!(GameState::with_body(&long, Velocity::Right, Coordinate(5, 5), Player::P1, 0).is_none());
    assert!(GameState::with_body(&long[..9].to_vec(), Velocity::Right, Coordinate(5, 5), Player::P1, 0).is_some());
}

#[test]
fn normal_move_keeps_length() {
    let mut r = rng(2);
    let mut g = game(&[Coordinate(2, 2), Coordinate(1, 2)], Velocity::Right, Coordinate(0, 0), Player::P1, 0);
    assert_eq!(g.tick(&mut r), 2000);
    assert_eq!(g.snake(), vec![Coordinate(3, 2), Coordinate(2, 2)]);
    assert_eq!(g.food(), Coordinate(0, 0));
    assert_eq!(g.player, Player::P1);
}

#[test]
fn driver_gating_ignores_the_other_player() {
    let mut r = rng(3);
    let mut g = game(&[Coordinate(1, 3)], Velocity::Right, Coordinate(5, 5), Player::P2, 0);
    g.button_push(Player::P1, Direction::CCW);
    g.tick(&mut r);
    assert_eq!(g.velocity(), Velocity::Right);
    assert_eq!(g.snake(), vec![Coordinate(2, 3)]);

    let mut g = game(&[Coordinate(1, 3)], Velocity::Right, Coordinate(5, 5), Player::P2, 0);
    g.button_push(Player::P2, Direction::CCW);
    g.tick(&mut r);
    assert_eq!(g.velocity(), Velocity::Up);
    assert_eq!(g.snake(), vec![Coordinate(1, 4)]);
}

#[test]
fn last_push_before_tick_wins() {
    let mut r = rng(4);
    let mut g = game(&[Coordinate(1, 3)], Velocity::Right, Coordinate(5, 5), Player::P2, 0);
    g.button_push(Player::P2, Direction::CCW);
    g.button_push(Player::P2, Direction::CW);
    g.tick(&mut r);
    assert_eq!(g.velocity(), Velocity::Down);
    assert_eq!(g.snake(), vec![Coordinate(1, 2)]);
    g.tick(&mut r);
    assert_eq!(g.velocity(), Velocity::Down);
}

#[test]
fn boundary_collision_resets() {
    let mut r = rng(5);
    let mut g = game(&[Coordinate(5, 3), Coordinate(4, 3)], Velocity::Right, Coordinate(0, 0), Player::P1, 3);
    assert_eq!(g.tick(&mut r), 2000);
    assert_eq!(g.snake(), vec![Coordinate(1, 3)]);
    assert_eq!(g.velocity(), Velocity::Right);
    assert_eq!(g.level(), 0);
    assert_eq!(g.player, Player::P2);
    assert!(well_formed(&g));
}

#[test]
fn self_collision_resets() {
    let mut r = rng(6);
    let body = [Coordinate(2, 2), Coordinate(2, 3), Coordinate(3, 3), Coordinate(3, 2)];
    let mut g = game(&body, Velocity::Right, Coordinate(0, 0), Player::P1, 2);
    assert_eq!(g.tick(&mut r), 2000);
    assert_eq!(g.snake(), vec![Coordinate(1, 3)]);
    assert_eq!(g.level(), 0);
    assert!(well_formed(&g));
}

#[test]
fn growth_on_food() {
    let mut r = rng(7);
    let mut g = game(&[Coordinate(2, 2), Coordinate(1, 2)], Velocity::Right, Coordinate(3, 2), Player::P1, 0);
    assert_eq!(g.tick(&mut r), 2000);
    assert_eq!(g.snake(), vec![Coordinate(3, 2), Coordinate(2, 2), Coordinate(1, 2)]);
    assert_eq!(g.player, Player::P2);
    assert_eq!(g.level(), 0);
    assert!(!g.snake().contains(&g.food()));
    assert!(well_formed(&g));
}

#[test]
fn lap_resets_body_and_speeds_up() {
    let mut r = rng(8);
    let body = [
        Coordinate(2, 1),
        Coordinate(1, 1),
        Coordinate(0, 1),
        Coordinate(0, 0),
        Coordinate(1, 0),
        Coordinate(2, 0),
        Coordinate(3, 0),
        Coordinate(4, 0),
        Coordinate(5, 0),
    ];
    let mut g = game(&body, Velocity::Right, Coordinate(3, 1), Player::P2, 0);
    assert_eq!(g.tick(&mut r), 1000);
    assert_eq!(g.snake(), vec![Coordinate(3, 1)]);
    assert_eq!(g.level(), 1);
    assert_eq!(g.player, Player::P1);
    assert_ne!(g.food(), Coordinate(3, 1));
    assert!(well_formed(&g));
}

#[test]
fn duration_halves_per_level() {
    assert_eq!(duration(0), 2000);
    assert_eq!(duration(1), 1000);
    assert_eq!(duration(3), 250);
    assert_eq!(duration(10), 1);
    assert_eq!(duration(11), 0);
    assert_eq!(duration(40), 0);
    assert_eq!(duration(u32::MAX), 0);
}

#[test]
fn nth_free_cell_counts_free_cells_in_row_order() {
    let mut snake = [Coordinate(0, 0); 10];
    snake[1] = Coordinate(2, 0);
    assert_eq!(nth_free_cell(&snake, 1, 0), Coordinate(1, 0));
    assert_eq!(nth_free_cell(&snake, 1, 5), Coordinate(0, 1));
    assert_eq!(nth_free_cell(&snake, 2, 1), Coordinate(3, 0));
    assert_eq!(nth_free_cell(&snake, 2, 33), Coordinate(5, 5));
}

#[test]
fn random_play_keeps_the_invariant() {
    for seed in 0..20u64 {
        let mut r = rng(seed);
        let mut g = GameState::new(&mut r);
        for step in 0..200u32 {
            let d = if step % 3 == 0 { Direction::CW } else { Direction::CCW };
            if step % 2 == 0 {
                g.button_push(g.player, d);
            }
            let before = duration(g.level());
            let t = g.tick(&mut r);
            assert_eq!(t, duration(g.level()));
            assert!(t <= 2000 && (g.level() > 0 || t == before || t == 2000));
            assert!(well_formed(&g));
            assert!(g.snake().len() < 10);
        }
    }
}

#[test]
fn leds_length_and_repeatable() {
    let mut r = rng(9);
    let g = GameState::new(&mut r);
    let a = g.leds();
    let b = g.leds();
    assert_eq!(a.len(), 2 * 6 * 6 + 5);
    assert_eq!(a.len(), LED_COUNT);
    assert_eq!(a, b);
}

#[test]
fn leds_mirror_the_observer_and_interleave_rows() {
    let g = game(&[Coordinate(1, 3), Coordinate(1, 2)], Velocity::Right, Coordinate(4, 0), Player::P2, 0);
    let leds = g.leds();
    let mut expected = [BLACK; 77];
    // driver (P2) row 0: food at x = 4, after P1's row
    expected[6 + 4] = BLUE;
    // row pair 1 starts at 26; observer (P1) row 2 mirrored: tail x = 1 -> 4
    expected[26 + 4] = RED;
    // driver row 3 backwards: head x = 1 at 26 + 13 + (5 - 1)
    expected[26 + 13 + 4] = GREEN;
    // observer row 3 mirrored then backwards: head x = 1 at 26 + 19 + 1
    expected[26 + 19 + 1] = GREEN;
    assert_eq!(leds, expected);
}

#[test]
fn leds_driver_sees_food_but_no_tail() {
    let g = game(&[Coordinate(0, 0), Coordinate(1, 0)], Velocity::Up, Coordinate(5, 1), Player::P1, 0);
    let leds = g.leds();
    // P1 drives: row 0 forwards: head at 0, tail hidden
    assert_eq!(leds[0], GREEN);
    assert_eq!(leds[1], BLACK);
    // P1 row 1 backwards at 19..25: food x = 5 -> 19
    assert_eq!(leds[19], BLUE);
    // P2 observes row 0 mirrored: head x = 0 -> 5, tail x = 1 -> 4
    assert_eq!(leds[6 + 5], GREEN);
    assert_eq!(leds[6 + 4], RED);
    // P2 does not see the food
    assert!(leds[13..19].iter().all(|c| *c == BLACK));
    for sep in [12, 25, 38, 51, 64] {
        assert_eq!(leds[sep], BLACK);
    }
}
