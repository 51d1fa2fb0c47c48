use typy::cli::resolve_lang;
use typy::keyboard::Key;
use typy::menu::{build_menu, menu_step, MenuEvent, PostGameAction};
use typy::stats::Stats;
use typy::text::{decimal_string, split_whitespace};

#[test]
fn language_shorthands() {
    assert_eq!(resolve_lang("s"), "spanish");
    assert_eq!(resolve_lang("es"), "spanish");
    assert_eq!(resolve_lang("esp"), "spanish");
    assert_eq!(resolve_lang("e"), "english");
    assert_eq!(resolve_lang("en"), "english");
    assert_eq!(resolve_lang("eng"), "english");
    assert_eq!(resolve_lang("german"), "german");
    assert_eq!(resolve_lang(""), "");
}

#[test]
fn stats_close_seconds() {
    let mut stats = Stats::new();
    stats.letter_count = 7;
    stats.add_error();
    stats.add_error();
    stats.add_letters();
    assert_eq!(stats.lps, vec![7]);
    assert_eq!(stats.errors_ps, vec![2]);
    assert_eq!((stats.letter_count, stats.current_errors), (0, 0));
    stats.letter_count = 5;
    stats.add_letters();
    assert_eq!(stats.total_letters(), 12);
    assert_eq!(stats.total_seconds(), 2);
}

#[test]
fn stats_derived_counts() {
    let mut stats = Stats::new();
    stats.lps = vec![10, 6, 0];
    stats.errors_ps = vec![2, 1];
    stats.incorrect_letters = 3;
    stats.extra_chars = 1;
    assert_eq!(stats.correct_chars(), 13);
    assert_eq!(stats.incorrect_chars(), 2);
    assert_eq!(stats.raw_words(), 3);
    assert_eq!(stats.net_words(), 2);
    stats.lps = vec![10, 6, 0, 9];
    assert_eq!(stats.window_letters(3), vec![10, 16, 16, 15]);
    assert_eq!(stats.window_net_letters(3), vec![8, 13, 13, 14]);
    assert_eq!(stats.window_letters(1), vec![10, 6, 0, 9]);
    stats.lps = vec![10, 6, 0];
    stats.incorrect_letters = 40;
    assert_eq!(stats.correct_chars(), 0);
}

#[test]
fn menu_lists_replays_and_quit() {
    let menu = build_menu(45, "klingon");
    let labels: Vec<&str> = menu.iter().map(|m| m.label.as_str()).collect();
    assert_eq!(labels, vec!["replay", "15s", "30s", "60s", "120s", "english", "spanish", "quit"]);
    match &menu[0].action {
        PostGameAction::Replay { duration, lang } => assert_eq!((*duration, lang.as_str()), (45, "klingon")),
        _ => panic!("replay expected"),
    }
    match &menu[4].action {
        PostGameAction::Replay { duration, lang } => assert_eq!((*duration, lang.as_str()), (120, "klingon")),
        _ => panic!("replay expected"),
    }
    match &menu[6].action {
        PostGameAction::Replay { duration, lang } => assert_eq!((*duration, lang.as_str()), (45, "spanish")),
        _ => panic!("replay expected"),
    }
    assert!(matches!(menu[7].action, PostGameAction::Quit));
}

#[test]
fn menu_keys() {
    assert_eq!(menu_step(0, Key::Left, 8), MenuEvent::Select(0));
    assert_eq!(menu_step(3, Key::Left, 8), MenuEvent::Select(2));
    assert_eq!(menu_step(7, Key::Right, 8), MenuEvent::Select(7));
    assert_eq!(menu_step(2, Key::Right, 8), MenuEvent::Select(3));
    assert_eq!(menu_step(5, Key::Enter, 8), MenuEvent::Confirm(5));
    assert_eq!(menu_step(5, Key::Tab, 8), MenuEvent::Confirm(5));
    assert_eq!(menu_step(5, Key::Esc, 8), MenuEvent::Quit);
    assert_eq!(menu_step(5, Key::Char('q'), 8), MenuEvent::Ignore);
}

#[test]
fn numbers_are_written_in_decimal() {
    assert_eq!(decimal_string(0), "0");
    assert_eq!(decimal_string(7), "7");
    assert_eq!(decimal_string(305), "305");
    assert_eq!(decimal_string(4294967295), "4294967295");
}

#[test]
fn whitespace_splits_words() {
    let chars: Vec<char> = "  ab\tc  d\u{3000}é ".chars().collect();
    assert_eq!(split_whitespace(&chars), vec!["ab".to_string(), "c".to_string(), "d".to_string(), "é".to_string()]);
    assert!(split_whitespace(&vec![' ', '\n']).is_empty());
}

#[test]
fn whitespace_is_what_std_calls_whitespace() {
    for code in 0u32..0x3100 {
        if let Some(c) = char::from_u32(code) {
            let text = vec!['a', c, 'b'];
            let expected: Vec<String> = "a".chars().chain([c]).chain("b".chars()).collect::<String>()
                .split_whitespace()
                .map(|w| w.to_string())
                .collect();
            assert_eq!(split_whitespace(&text), expected, "character {:#x}", code);
        }
    }
}
