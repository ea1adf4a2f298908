use snake::{Block, Difficulty, Direction, Game, Input};

fn b(x: i32, y: i32) -> Block {
    Block { x, y }
}

fn started(width: i32, height: i32, difficulty: Difficulty) -> Game {
    let mut g = Game::new(width, height, difficulty);
    g.key_pressed(Input::Start);
    g
}

fn steer(g: &mut Game, d: Direction) {
    g.key_pressed(Input::Steer(d));
}

#[test]
fn difficulty_periods() {
    assert_eq!(Difficulty::Easy.moving_period_us(), 200_000);
    assert_eq!(Difficulty::Normal.moving_period_us(), 100_000);
    assert_eq!(Difficulty::Hard.moving_period_us(), 50_000);
    assert_eq!(Difficulty::Insane.moving_period_us(), 33_333);
    assert_eq!(Difficulty::Insane.moves_per_second(), 30);
}

#[test]
fn new_game_waits_for_start() {
    let g = Game::new(20, 15, Difficulty::Hard);
    assert!(!g.is_active());
    assert_eq!(g.attempt(), 0);
    assert_eq!(g.width(), 20);
    assert_eq!(g.height(), 15);
    assert_eq!(g.food(), Some(b(6, 4)));
    assert_eq!(g.snake().blocks(), vec![b(2, 2), b(1, 2), b(0, 2)]);
    assert_eq!(g.moving_period_us(), 50_000);
    assert_eq!(g.waiting_time_us(), 0);
}

#[test]
fn inactive_game_ignores_all_but_start() {
    let mut g = Game::new(20, 20, Difficulty::Normal);
    steer(&mut g, Direction::Down);
    g.key_pressed(Input::Other);
    assert!(!g.is_active());
    assert_eq!(g.snake().blocks(), vec![b(2, 2), b(1, 2), b(0, 2)]);
    g.update(500_000);
    assert_eq!(g.snake().blocks(), vec![b(2, 2), b(1, 2), b(0, 2)]);
    assert_eq!(g.waiting_time_us(), 500_000);
    g.key_pressed(Input::Start);
    assert!(g.is_active());
    assert_eq!(g.attempt(), 1);
}

#[test]
fn steer_then_short_update_moves_once() {
    let mut g = started(20, 20, Difficulty::Normal);
    steer(&mut g, Direction::Up);
    assert_eq!(g.snake().blocks(), vec![b(2, 1), b(2, 2), b(1, 2)]);
    g.update(50_000);
    assert_eq!(g.snake().blocks(), vec![b(2, 1), b(2, 2), b(1, 2)]);
    assert_eq!(g.waiting_time_us(), 50_000);
    assert!(g.is_active());
}

#[test]
fn timer_moves_only_after_period_is_exceeded() {
    let mut g = started(20, 20, Difficulty::Easy);
    g.update(200_000);
    assert_eq!(*g.snake().head(), b(2, 2));
    g.update(1);
    assert_eq!(*g.snake().head(), b(3, 2));
    assert_eq!(g.waiting_time_us(), 0);
}

#[test]
fn reversal_is_ignored() {
    let mut g = started(20, 20, Difficulty::Normal);
    g.update(30_000);
    steer(&mut g, Direction::Left);
    assert_eq!(g.snake().blocks(), vec![b(2, 2), b(1, 2), b(0, 2)]);
    assert_eq!(g.snake().head_direction(), Direction::Right);
    assert_eq!(g.waiting_time_us(), 30_000);
    assert!(g.is_active());
}

#[test]
fn other_key_is_ignored_while_active() {
    let mut g = started(20, 20, Difficulty::Normal);
    g.key_pressed(Input::Other);
    g.key_pressed(Input::Start);
    assert_eq!(g.snake().blocks(), vec![b(2, 2), b(1, 2), b(0, 2)]);
    assert_eq!(g.attempt(), 1);
}

#[test]
fn wall_collision_ends_attempt() {
    let mut g = started(10, 10, Difficulty::Normal);
    steer(&mut g, Direction::Up);
    assert_eq!(g.snake().blocks(), vec![b(2, 1), b(2, 2), b(1, 2)]);
    steer(&mut g, Direction::Up);
    assert!(!g.is_active());
    assert_eq!(g.snake().blocks(), vec![b(2, 1), b(2, 2), b(1, 2)]);
}

#[test]
fn right_wall_collision_ends_attempt() {
    let mut g = started(10, 10, Difficulty::Normal);
    for _ in 0..6 {
        steer(&mut g, Direction::Right);
    }
    assert_eq!(*g.snake().head(), b(8, 2));
    assert!(g.is_active());
    steer(&mut g, Direction::Right);
    assert!(!g.is_active());
    assert_eq!(*g.snake().head(), b(8, 2));
}

fn eat_starting_food(g: &mut Game) {
    steer(g, Direction::Down);
    steer(g, Direction::Down);
    for _ in 0..4 {
        steer(g, Direction::Right);
    }
}

#[test]
fn eating_grows_by_one() {
    let mut g = started(20, 20, Difficulty::Normal);
    steer(&mut g, Direction::Down);
    steer(&mut g, Direction::Down);
    for _ in 0..3 {
        steer(&mut g, Direction::Right);
    }
    assert_eq!(g.snake().blocks().len(), 3);
    assert_eq!(g.food(), Some(b(6, 4)));
    steer(&mut g, Direction::Right);
    assert_eq!(g.food(), None);
    assert_eq!(g.snake().blocks(), vec![b(6, 4), b(5, 4), b(4, 4), b(3, 4)]);
    steer(&mut g, Direction::Down);
    assert_eq!(g.snake().blocks().len(), 4);
}

#[test]
fn self_collision_with_a_middle_cell() {
    let mut g = started(20, 20, Difficulty::Normal);
    eat_starting_food(&mut g);
    g.place_food(73);
    assert_eq!(g.food(), Some(b(6, 5)));
    steer(&mut g, Direction::Down);
    assert_eq!(g.snake().blocks(), vec![b(6, 5), b(6, 4), b(5, 4), b(4, 4), b(3, 4)]);
    steer(&mut g, Direction::Left);
    let before = g.snake().blocks();
    steer(&mut g, Direction::Up);
    assert!(!g.is_active());
    assert_eq!(g.snake().blocks(), before);
}

#[test]
fn self_collision_with_the_tail() {
    let mut g = started(20, 20, Difficulty::Normal);
    eat_starting_food(&mut g);
    steer(&mut g, Direction::Down);
    steer(&mut g, Direction::Left);
    assert_eq!(g.snake().blocks(), vec![b(5, 5), b(6, 5), b(6, 4), b(5, 4)]);
    steer(&mut g, Direction::Up);
    assert!(!g.is_active());
    assert_eq!(g.snake().blocks(), vec![b(5, 5), b(6, 5), b(6, 4), b(5, 4)]);
}

#[test]
fn restart_after_death() {
    let mut g = started(10, 10, Difficulty::Normal);
    eat_starting_food(&mut g);
    steer(&mut g, Direction::Up);
    steer(&mut g, Direction::Up);
    steer(&mut g, Direction::Up);
    steer(&mut g, Direction::Up);
    assert!(!g.is_active());
    g.update(40_000);
    assert_eq!(g.waiting_time_us(), 40_000);
    g.key_pressed(Input::Start);
    assert!(g.is_active());
    assert_eq!(g.attempt(), 2);
    assert_eq!(g.snake().blocks(), vec![b(2, 2), b(1, 2), b(0, 2)]);
    assert_eq!(g.snake().head_direction(), Direction::Right);
    assert_eq!(g.food(), Some(b(6, 4)));
    assert_eq!(g.waiting_time_us(), 0);
}

#[test]
fn free_cells_in_row_order() {
    let g = Game::new(5, 5, Difficulty::Normal);
    assert_eq!(
        g.free_cells(),
        vec![b(1, 1), b(2, 1), b(3, 1), b(3, 2), b(1, 3), b(2, 3), b(3, 3)]
    );
}

#[test]
fn place_food_wraps_pick() {
    let mut g = Game::new(5, 5, Difficulty::Normal);
    g.place_food(3);
    assert_eq!(g.food(), Some(b(3, 2)));
    g.place_food(7);
    assert_eq!(g.food(), Some(b(1, 1)));
}

#[test]
fn update_places_chosen_food_then_moves() {
    let mut g = started(20, 20, Difficulty::Normal);
    eat_starting_food(&mut g);
    g.update_with_pick(100_001, 0);
    assert_eq!(g.food(), Some(b(1, 1)));
    assert_eq!(*g.snake().head(), b(7, 4));
    assert_eq!(g.waiting_time_us(), 0);
}

#[test]
fn update_places_random_food_on_free_cell() {
    let mut g = started(20, 20, Difficulty::Normal);
    eat_starting_food(&mut g);
    g.update(10);
    let food = g.food().unwrap();
    assert!(food.x >= 1 && food.x <= 18 && food.y >= 1 && food.y <= 18);
    assert!(!g.snake().tail_overlaps(food.x, food.y));
    assert!(g.free_cells().len() == 18 * 18 - 4);
}

#[test]
fn random_food_lands_on_a_free_cell_of_a_small_arena() {
    let mut seen: Vec<Block> = Vec::new();
    for _ in 0..40 {
        let mut g = started(5, 5, Difficulty::Normal);
        g.place_food(2);
        assert_eq!(g.food(), Some(b(3, 1)));
        steer(&mut g, Direction::Up);
        steer(&mut g, Direction::Right);
        assert_eq!(g.food(), None);
        assert_eq!(g.snake().blocks(), vec![b(3, 1), b(2, 1), b(2, 2), b(1, 2)]);
        g.update(0);
        let food = g.food().unwrap();
        assert_eq!(g.free_cells().len(), 5);
        assert!(g.free_cells().contains(&food));
        assert!(!g.snake().tail_overlaps(food.x, food.y));
        if !seen.contains(&food) {
            seen.push(food);
        }
    }
    assert!(seen.len() > 1);
}

#[test]
fn difficulty_tokens_ignore_case() {
    assert_eq!(Difficulty::from_token("e"), Some(Difficulty::Easy));
    assert_eq!(Difficulty::from_token("EASY"), Some(Difficulty::Easy));
    assert_eq!(Difficulty::from_token("n"), Some(Difficulty::Normal));
    assert_eq!(Difficulty::from_token("Normal"), Some(Difficulty::Normal));
    assert_eq!(Difficulty::from_token("H"), Some(Difficulty::Hard));
    assert_eq!(Difficulty::from_token("hard"), Some(Difficulty::Hard));
    assert_eq!(Difficulty::from_token("i"), Some(Difficulty::Insane));
    assert_eq!(Difficulty::from_token("InSaNe"), Some(Difficulty::Insane));
}

#[test]
fn unknown_difficulty_tokens_are_rejected() {
    assert_eq!(Difficulty::from_token(""), None);
    assert_eq!(Difficulty::from_token("x"), None);
    assert_eq!(Difficulty::from_token("easyy"), None);
    assert_eq!(Difficulty::from_token(" easy"), None);
    assert_eq!(Difficulty::from_token("har"), None);
    assert_eq!(Difficulty::from_token("é"), None);
}

#[test]
fn eating_on_the_very_first_move() {
    let mut g = started(20, 20, Difficulty::Normal);
    g.place_food(18);
    assert_eq!(g.food(), Some(b(3, 2)));
    assert_eq!(g.snake().last_removed_tail(), None);
    steer(&mut g, Direction::Right);
    assert_eq!(g.food(), None);
    assert_eq!(g.snake().blocks(), vec![b(3, 2), b(2, 2), b(1, 2), b(0, 2)]);
}
