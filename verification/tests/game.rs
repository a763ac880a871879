use game_of_life::{get_cycle_range, Config, CycleRange, Game};

fn config(words: &[&str]) -> Config {
    Config::build(words.iter().map(|word| word.to_string()).collect()).unwrap()
}

#[test]
fn new_game_shows_the_seeds() {
    let game = Game::new(config(&["3", "2", "0", "0,0", "2,1", "2,1"]));
    assert_eq!(game.print_game_state(), ". . O \nO . . \n");
}

#[test]
fn step_advances_and_renders() {
    let mut game = Game::new(config(&["5", "5", "2", "1,2", "2,2", "3,2"]));
    let upright = ". . . . . \n. . O . . \n. . O . . \n. . O . . \n. . . . . \n";
    let flat = ". . . . . \n. . . . . \n. O O O . \n. . . . . \n. . . . . \n";
    assert_eq!(game.print_game_state(), flat);
    assert_eq!(game.step(), upright);
    assert_eq!(game.print_game_state(), upright);
    assert_eq!(game.step(), flat);
    assert_eq!(game.print_game_state(), flat);
}

#[test]
fn step_forward_advances_without_rendering() {
    let mut game = Game::new(config(&["5", "5", "2", "1,2", "2,2", "3,2"]));
    game.step_forward();
    assert_eq!(
        game.print_game_state(),
        ". . . . . \n. . O . . \n. . O . . \n. . O . . \n. . . . . \n"
    );
}

#[test]
fn block_game_never_changes() {
    let mut game = Game::new(config(&["4", "4", "0", "1,1", "2,1", "1,2", "2,2"]));
    let still = ". . . . \n. O O . \n. O O . \n. . . . \n";
    assert_eq!(game.print_game_state(), still);
    for _ in 0..6 {
        assert_eq!(game.step(), still);
    }
}

#[test]
fn seeds_beyond_the_grid_leave_the_game_empty() {
    let mut game = Game::new(config(&["2", "2", "0", "5,5", "2,0", "0,2"]));
    assert_eq!(game.print_game_state(), ". . \n. . \n");
    assert_eq!(game.step(), ". . \n. . \n");
}

#[test]
fn game_without_cells() {
    let mut game = Game::new(config(&["0", "0", "0", "1,1", "2,2", "3,3"]));
    assert_eq!(game.print_game_state(), "");
    assert_eq!(game.step(), "");
}

#[test]
fn zero_cycles_means_no_end() {
    assert_eq!(get_cycle_range(0), CycleRange::Unbounded);
    let range = get_cycle_range(0);
    assert!(range.contains(0));
    assert!(range.contains(1));
    assert!(range.contains(usize::MAX));
}

#[test]
fn cycle_count_bounds_the_run() {
    assert_eq!(get_cycle_range(3), CycleRange::Bounded(3));
    let range = get_cycle_range(3);
    assert!(range.contains(0));
    assert!(range.contains(2));
    assert!(!range.contains(3));
    assert!(!range.contains(usize::MAX));
    assert_eq!(get_cycle_range(1), CycleRange::Bounded(1));
    assert_eq!(get_cycle_range(usize::MAX), CycleRange::Bounded(usize::MAX));
}

#[test]
fn run_of_a_bounded_game_takes_as_many_steps_as_asked() {
    let config = config(&["5", "5", "3", "1,2", "2,2", "3,2"]);
    let range = get_cycle_range(config.get_cycle_count());
    let mut game = Game::new(config);
    let mut done = 0;
    while range.contains(done) {
        game.step();
        done += 1;
    }
    assert_eq!(done, 3);
    assert_eq!(
        game.print_game_state(),
        ". . . . . \n. . O . . \n. . O . . \n. . O . . \n. . . . . \n"
    );
}
