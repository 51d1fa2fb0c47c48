use typy::game::{
    calc_line_xs, close_typy, ghost_frame_at, middle_for_size, player_passed, position_for_size, tick, Tick,
    total_chars, Game, GhostFrame, Player,
};
use typy::keyboard::Key;

fn line(words: &[&str]) -> Vec<String> {
    words.iter().map(|w| w.to_string()).collect()
}

#[test]
fn new_game_starts_at_the_beginning() {
    let game = Game::new(vec![line(&["a", "b"])]);
    assert_eq!((game.player.position_x, game.player.position_y), (0, 0));
    assert_eq!(game.original_list, game.list);
    assert!(!game.quit);
    let p = Player::new();
    assert_eq!((p.position_x, p.position_y), (0, 0));
}

#[test]
fn word_string_joins_with_spaces() {
    let game = Game::new(vec![line(&["hello", "big", "world"]), line(&[])]);
    assert_eq!(game.get_word_string(0), "hello big world");
    assert_eq!(game.get_word_string(1), "");
}

#[test]
fn lines_are_centred() {
    let game = Game::new(vec![line(&["abcd", "ef"]), line(&[]), line(&["a"])]);
    assert_eq!(calc_line_xs(&game, 80, 4), vec![37, 40, 40]);
    assert_eq!(calc_line_xs(&game, 6, 4), vec![4, 4, 4]);
}

#[test]
fn total_chars_counts_lines_above() {
    let lines = vec![line(&["ab", "cd"]), line(&["efg"]), line(&["h"])];
    assert_eq!(total_chars(2, 0, &lines), 2);
    assert_eq!(total_chars(1, 2, &lines), 9);
    assert_eq!(total_chars(0, 10, &lines), 9);
    assert_eq!(total_chars(-3, 1, &lines), 2);
}

#[test]
fn ghost_shows_last_frame_reached() {
    let frames = vec![
        GhostFrame { elapsed_ms: 100, position_x: 1, position_y: 0 },
        GhostFrame { elapsed_ms: 250, position_x: 2, position_y: 0 },
        GhostFrame { elapsed_ms: 400, position_x: 0, position_y: 1 },
    ];
    assert_eq!(ghost_frame_at(&frames, 50), None);
    assert_eq!(ghost_frame_at(&frames, 250), Some(frames[1]));
    assert_eq!(ghost_frame_at(&frames, 399), Some(frames[1]));
    assert_eq!(ghost_frame_at(&frames, 10_000), Some(frames[2]));
}

#[test]
fn player_passes_positions_before_it() {
    let p = Player { position_x: 3, position_y: 1 };
    assert!(player_passed(&p, 2, 1));
    assert!(player_passed(&p, 50, 0));
    assert!(!player_passed(&p, 3, 1));
    assert!(!player_passed(&p, 0, 2));
}

#[test]
fn layout_follows_terminal_size() {
    assert_eq!(middle_for_size(120, 40), (25, 19, 70));
    assert_eq!(middle_for_size(50, 10), (4, 4, 42));
    assert_eq!(middle_for_size(10, 2), (4, 0, 20));
    assert_eq!(middle_for_size(10, 1), (4, 0, 20));
    assert_eq!(middle_for_size(10, 0), (4, 0, 20));
    assert_eq!(position_for_size(120, 40, 70), (25, 19));
    assert_eq!(position_for_size(20, 1, 70), (4, 0));
}

#[test]
fn escape_and_control_c_close() {
    assert_eq!(close_typy(&Key::Esc, false), Some(()));
    assert_eq!(close_typy(&Key::Char('c'), true), Some(()));
    assert_eq!(close_typy(&Key::Char('c'), false), None);
    assert_eq!(close_typy(&Key::Enter, true), None);
}

#[test]
fn the_loop_finishes_after_the_last_line_or_the_time() {
    let mut game = Game::new(vec![vec!["ab".to_string()]]);
    assert_eq!(tick(&game, false, 30, 30), Tick::Wait);
    assert_eq!(tick(&game, false, 29, 30), Tick::CloseSecond);
    assert_eq!(tick(&game, true, 29, 30), Tick::Finish);
    game.player.position_y = 1;
    assert_eq!(tick(&game, false, 30, 30), Tick::Finish);
}
