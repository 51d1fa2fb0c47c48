use typy::game::{game_is_wf, words_within_limit, Game};
use typy::keyboard::{can_handle, handle_input, GameError, InputAction, Key, Paint, Style};
use typy::stats::Stats;

fn line(words: &[&str]) -> Vec<String> {
    words.iter().map(|w| w.to_string()).collect()
}

fn press(game: &mut Game, stats: &mut Stats, key: Key) -> (Result<InputAction, GameError>, Vec<Paint>) {
    let mut paints = Vec::new();
    let r = handle_input(game, key, stats, &mut paints);
    (r, paints)
}

fn typed(game: &mut Game, stats: &mut Stats, text: &str) {
    for c in text.chars() {
        let (r, _) = press(game, stats, Key::Char(c));
        assert!(r.is_ok());
    }
}

#[test]
fn correct_letter_is_painted_and_counted() {
    let mut game = Game::new(vec![line(&["hello", "world"])]);
    let mut stats = Stats::new();
    let (r, paints) = press(&mut game, &mut stats, Key::Char('h'));
    assert_eq!(r, Ok(InputAction::Proceed));
    assert_eq!(game.player.position_x, 1);
    assert_eq!(stats.letter_count, 1);
    assert_eq!(stats.incorrect_letters, 0);
    assert_eq!(paints.len(), 1);
    assert_eq!((paints[0].col, paints[0].row, paints[0].style, paints[0].text.as_str()), (0, 0, Style::Typed, "h"));
}

#[test]
fn wrong_letter_paints_the_expected_one() {
    let mut game = Game::new(vec![line(&["hello"])]);
    let mut stats = Stats::new();
    let (_, paints) = press(&mut game, &mut stats, Key::Char('x'));
    assert_eq!(game.player.position_x, 1);
    assert_eq!(stats.incorrect_letters, 1);
    assert_eq!(stats.current_errors, 1);
    assert_eq!((paints[0].style, paints[0].text.as_str()), (Style::Wrong, "h"));
}

#[test]
fn space_inside_a_word_counts_as_an_error() {
    let mut game = Game::new(vec![line(&["hello", "world"])]);
    let mut stats = Stats::new();
    typed(&mut game, &mut stats, "he");
    let (r, paints) = press(&mut game, &mut stats, Key::Char(' '));
    assert_eq!(r, Ok(InputAction::Proceed));
    assert_eq!(game.player.position_x, 3);
    assert_eq!(game.selected_word_index, 0);
    assert_eq!(stats.incorrect_letters, 1);
    assert_eq!((paints[0].col, paints[0].style, paints[0].text.as_str()), (2, Style::Wrong, "l"));
}

#[test]
fn space_at_line_start_is_ignored() {
    let mut game = Game::new(vec![line(&["hello"])]);
    let mut stats = Stats::new();
    let (r, paints) = press(&mut game, &mut stats, Key::Char(' '));
    assert_eq!(r, Ok(InputAction::Continue));
    assert_eq!(game.player.position_x, 0);
    assert_eq!(stats.letter_count, 0);
    assert!(paints.is_empty());
}

#[test]
fn space_after_a_word_moves_to_the_next() {
    let mut game = Game::new(vec![line(&["ab", "cd"])]);
    let mut stats = Stats::new();
    typed(&mut game, &mut stats, "ab ");
    assert_eq!(game.player.position_x, 3);
    assert_eq!(game.selected_word_index, 1);
    assert_eq!(stats.letter_count, 3);
    assert_eq!(stats.incorrect_letters, 0);
}

#[test]
fn space_after_the_last_word_moves_to_the_next_line() {
    let mut game = Game::new(vec![line(&["ab", "cd"]), line(&["ef"])]);
    let mut stats = Stats::new();
    typed(&mut game, &mut stats, "ab cd");
    let (r, _) = press(&mut game, &mut stats, Key::Char(' '));
    assert_eq!(r, Ok(InputAction::Continue));
    assert_eq!((game.player.position_x, game.player.position_y), (0, 1));
    assert_eq!(game.jump_position, 0);
    assert_eq!(game.selected_word_index, 0);
}

#[test]
fn space_after_a_word_jumps_on_a_later_line_too() {
    let mut game = Game::new(vec![line(&["ab", "cd"]), line(&["ef", "gh"])]);
    let mut stats = Stats::new();
    typed(&mut game, &mut stats, "ab cd ef");
    let (r, _) = press(&mut game, &mut stats, Key::Char(' '));
    assert_eq!(r, Ok(InputAction::Proceed));
    assert_eq!((game.player.position_x, game.player.position_y), (3, 1));
    assert_eq!(game.selected_word_index, 1);
    assert_eq!(game.jump_position, 2);
    assert_eq!((stats.letter_count, stats.incorrect_letters), (8, 0));
}

#[test]
fn backspace_undoes_a_letter() {
    let mut game = Game::new(vec![line(&["hello"])]);
    let mut stats = Stats::new();
    typed(&mut game, &mut stats, "hx");
    let (r, paints) = press(&mut game, &mut stats, Key::Backspace);
    assert_eq!(r, Ok(InputAction::Proceed));
    assert_eq!(game.player.position_x, 1);
    assert_eq!((paints[0].col, paints[0].style, paints[0].text.as_str()), (1, Style::Pending, "e"));
    assert_eq!(stats.letter_count, 2);
}

#[test]
fn letter_on_a_space_is_an_extra_character_and_backspace_removes_it() {
    let mut game = Game::new(vec![line(&["ab", "cd"])]);
    let mut stats = Stats::new();
    typed(&mut game, &mut stats, "ab");
    let (_, paints) = press(&mut game, &mut stats, Key::Char('x'));
    assert_eq!(game.list, vec![line(&["abx", "cd"])]);
    assert_eq!(game.player.position_x, 3);
    assert_eq!(paints.len(), 2);
    assert_eq!((paints[0].col, paints[0].style, paints[0].text.as_str()), (2, Style::Extra, "x"));
    assert_eq!((paints[1].col, paints[1].style, paints[1].text.as_str()), (3, Style::Pending, " cd"));
    assert_eq!((stats.letter_count, stats.incorrect_letters, stats.extra_chars, stats.current_errors), (3, 1, 1, 1));
    let (_, paints) = press(&mut game, &mut stats, Key::Backspace);
    assert_eq!(game.list, vec![line(&["ab", "cd"])]);
    assert_eq!(game.player.position_x, 2);
    assert_eq!((paints[0].col, paints[0].style, paints[0].text.as_str()), (2, Style::Pending, " cd "));
}

#[test]
fn letters_past_the_line_end_are_extra() {
    let mut game = Game::new(vec![line(&["ab"])]);
    let mut stats = Stats::new();
    typed(&mut game, &mut stats, "abz");
    assert_eq!(game.list, vec![line(&["abz"])]);
    assert_eq!(game.player.position_x, 3);
    assert_eq!(stats.extra_chars, 1);
    assert_eq!(stats.incorrect_letters, 1);
    assert_eq!(game.original_list, vec![line(&["ab"])]);
}

#[test]
fn backspace_at_line_start_returns_to_previous_line() {
    let mut game = Game::new(vec![line(&["ab", "cd"]), line(&["ef"])]);
    let mut stats = Stats::new();
    typed(&mut game, &mut stats, "ab cd ");
    assert_eq!(game.player.position_y, 1);
    let (_, paints) = press(&mut game, &mut stats, Key::Backspace);
    assert!(paints.is_empty());
    assert_eq!((game.player.position_x, game.player.position_y), (5, 0));
    assert_eq!(game.selected_word_index, 1);
    assert_eq!(game.jump_position, 2);
    let (r, _) = press(&mut game, &mut stats, Key::Char(' '));
    assert_eq!(r, Ok(InputAction::Continue));
    assert_eq!((game.player.position_x, game.player.position_y), (0, 1));
}

#[test]
fn backspace_undoes_an_extra_letter_after_the_last_word() {
    let mut game = Game::new(vec![line(&["ab", "cd"])]);
    let mut stats = Stats::new();
    typed(&mut game, &mut stats, "ab cd");
    let (jump, word) = (game.jump_position, game.selected_word_index);
    typed(&mut game, &mut stats, "x");
    assert_eq!(game.list, vec![line(&["ab", "cdx"])]);
    press(&mut game, &mut stats, Key::Backspace);
    assert_eq!(game.list, vec![line(&["ab", "cd"])]);
    assert_eq!(game.player.position_x, 5);
    assert_eq!((game.jump_position, game.selected_word_index), (jump, word));
}

#[test]
fn backspace_undoes_a_jump_to_the_next_word() {
    let mut game = Game::new(vec![line(&["ab", "cd", "ef"])]);
    let mut stats = Stats::new();
    typed(&mut game, &mut stats, "ab cd");
    let before = (game.player.position_x, game.selected_word_index, game.jump_position);
    typed(&mut game, &mut stats, " ");
    assert_eq!((game.player.position_x, game.selected_word_index, game.jump_position), (6, 2, 5));
    press(&mut game, &mut stats, Key::Backspace);
    assert_eq!((game.player.position_x, game.selected_word_index, game.jump_position), before);
}

#[test]
fn backspace_over_a_space_returns_into_the_previous_word() {
    let mut game = Game::new(vec![line(&["ab", "cd"])]);
    let mut stats = Stats::new();
    typed(&mut game, &mut stats, "ab ");
    let (_, paints) = press(&mut game, &mut stats, Key::Backspace);
    assert_eq!(game.player.position_x, 2);
    assert_eq!(game.selected_word_index, 0);
    assert_eq!(game.jump_position, 0);
    assert_eq!((paints[0].col, paints[0].text.as_str()), (2, " "));
}

#[test]
fn backspace_at_the_very_start_does_nothing() {
    let mut game = Game::new(vec![line(&["ab"])]);
    let mut stats = Stats::new();
    let (r, paints) = press(&mut game, &mut stats, Key::Backspace);
    assert_eq!(r, Ok(InputAction::Proceed));
    assert_eq!((game.player.position_x, game.player.position_y), (0, 0));
    assert!(paints.is_empty());
}

#[test]
fn full_line_takes_no_extra_character() {
    let long = "a".repeat(100);
    let mut game = Game::new(vec![vec![long.clone()]]);
    let mut stats = Stats::new();
    for _ in 0..100 {
        press(&mut game, &mut stats, Key::Char('a'));
    }
    let (r, paints) = press(&mut game, &mut stats, Key::Char('b'));
    assert_eq!(r, Ok(InputAction::Proceed));
    assert_eq!(game.player.position_x, 100);
    assert_eq!(game.list, vec![vec![long]]);
    assert!(paints.is_empty());
    assert_eq!(stats.letter_count, 100);
}

#[test]
fn other_keys_do_nothing() {
    let mut game = Game::new(vec![line(&["ab"])]);
    let mut stats = Stats::new();
    let (r, paints) = press(&mut game, &mut stats, Key::Left);
    assert_eq!(r, Ok(InputAction::Proceed));
    assert_eq!(game.player.position_x, 0);
    assert!(paints.is_empty());
}

#[test]
fn space_far_past_the_line_is_an_error() {
    let mut game = Game::new(vec![line(&["ab"])]);
    let mut stats = Stats::new();
    game.player.position_x = 5;
    let (r, _) = press(&mut game, &mut stats, Key::Char(' '));
    assert_eq!(r, Err(GameError::MissingCharacter));
}

#[test]
fn a_fresh_game_is_ready_for_keys() {
    let game = Game::new(vec![line(&["ab", "cd"]), line(&["ef"])]);
    let stats = Stats::new();
    assert!(game_is_wf(&game));
    assert!(can_handle(&game, &stats, Key::Char('a')));
    assert!(can_handle(&game, &stats, Key::Backspace));
    assert!(words_within_limit(&line(&["ab", "cd"])));
}

#[test]
fn a_finished_or_broken_game_takes_no_key() {
    let stats = Stats::new();
    let mut finished = Game::new(vec![line(&["ab"])]);
    finished.player.position_y = 1;
    assert!(game_is_wf(&finished));
    assert!(!can_handle(&finished, &stats, Key::Char('a')));
    let mut broken = Game::new(vec![line(&["ab"]), line(&["cd"])]);
    broken.original_list.pop();
    assert!(!game_is_wf(&broken));
    assert!(!can_handle(&broken, &stats, Key::Char('a')));
    let mut counted = Stats::new();
    counted.letter_count = i32::MAX;
    let game = Game::new(vec![line(&["ab"])]);
    assert!(!can_handle(&game, &counted, Key::Char('a')));
}

#[test]
fn backspaces_never_remove_a_given_letter() {
    let mut game = Game::new(vec![line(&["ab", "cd"])]);
    let mut stats = Stats::new();
    typed(&mut game, &mut stats, "abxy");
    assert_eq!(game.list, vec![line(&["abxy", "cd"])]);
    for _ in 0..4 {
        press(&mut game, &mut stats, Key::Backspace);
        assert!(game.list[0][0].starts_with("ab"));
        assert_eq!(game.list[0][1], "cd");
    }
    assert_eq!(game.list, vec![line(&["ab", "cd"])]);
    assert_eq!(game.player.position_x, 0);
}

#[test]
fn a_stale_jump_mark_does_not_swallow_a_space() {
    let mut game = Game::new(vec![line(&["ab", "cd"]), line(&["ef", "gh"])]);
    game.player.position_y = 1;
    game.jump_position = 1;
    let mut stats = Stats::new();
    typed(&mut game, &mut stats, "ef");
    let (r, _) = press(&mut game, &mut stats, Key::Char(' '));
    assert_eq!(r, Ok(InputAction::Proceed));
    assert_eq!((game.player.position_x, game.selected_word_index, game.jump_position), (3, 1, 2));
}
