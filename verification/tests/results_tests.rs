use typy::config::Color;
use typy::game::{ghost_label, ghost_label_color};
use typy::menu::build_menu;
use typy::results::{
    category_indices, centered_start, compare_to_best, confetti_frame, error_marks, human_age, keep_recent,
    leaderboard_order, menu_columns, results_layout, Record, ResultsLayout, ScoreEntry,
};

#[test]
fn layout_on_a_wide_terminal() {
    let l = results_layout(120, 40, false);
    assert_eq!(
        l,
        ResultsLayout {
            graph_x: 20,
            graph_y: 6,
            graph_width: 80,
            graph_height: 12,
            left_x: 4,
            stats_y: 20,
            col_width: 24,
            legend_x: 22,
            legend_y: 18,
            banner_y: 5,
            leaderboard_y: 24,
            show_leaderboard: true,
            menu_y: 37,
            hint_y: 39,
        }
    );
    assert_eq!(l.stat_column(0), 4);
    assert_eq!(l.stat_column(2), 52);
    assert_eq!(results_layout(120, 40, true).graph_y, 7);
}

#[test]
fn layout_on_a_small_terminal() {
    let l = results_layout(60, 20, false);
    assert_eq!((l.graph_x, l.graph_y, l.graph_width, l.graph_height), (15, 2, 30, 6));
    assert_eq!((l.left_x, l.stats_y, l.col_width), (4, 10, 12));
    assert!(!l.show_leaderboard);
    assert_eq!((l.menu_y, l.hint_y), (17, 19));
    let tiny = results_layout(0, 0, true);
    assert_eq!((tiny.menu_y, tiny.hint_y, tiny.graph_y), (0, 0, 2));
}

#[test]
fn centred_text() {
    assert_eq!(centered_start(80, 41), 20);
    assert_eq!(centered_start(41, 41), 0);
    assert_eq!(centered_start(20, 41), 0);
    assert_eq!(centered_start(0, 26), 0);
}

#[test]
fn menu_entries_columns() {
    let menu = build_menu(30, "english");
    assert_eq!(menu_columns(&menu, 100), vec![15, 24, 30, 36, 42, 49, 59, 69]);
    assert_eq!(menu_columns(&menu, 20)[0], 0);
    assert_eq!(menu_columns(&[], 100), Vec::<u16>::new());
}

#[test]
fn leaderboard_best_five_in_order() {
    assert_eq!(leaderboard_order(&[50, 70, 50, 90, 10, 70, 30]), vec![3, 1, 5, 0, 2]);
    assert_eq!(leaderboard_order(&[5, 5]), vec![0, 1]);
    assert_eq!(leaderboard_order(&[]), Vec::<usize>::new());
}

#[test]
fn personal_best() {
    assert_eq!(compare_to_best(50, &[]), Record::New);
    assert_eq!(compare_to_best(60, &[40, 50]), Record::New);
    assert_eq!(compare_to_best(50, &[40, 50]), Record::Tied);
    assert_eq!(compare_to_best(30, &[40]), Record::Behind);
}

#[test]
fn seconds_with_errors() {
    assert_eq!(error_marks(&[0, 2, 0, 1, -1]), vec![1, 3]);
    assert_eq!(error_marks(&[]), Vec::<usize>::new());
}

#[test]
fn confetti_stays_on_screen() {
    let pieces = confetti_frame(80, 24, 2);
    assert_eq!(pieces.len(), 60);
    for p in &pieces {
        assert!(p.x < 80 && p.y < 24);
        assert!("*+.ox#~".contains(p.symbol));
        assert!(matches!(
            p.color,
            Color::Yellow | Color::Red | Color::Green | Color::Blue | Color::Magenta | Color::Cyan
        ));
    }
    assert_eq!(confetti_frame(1, 1, 0).len(), 30);
}

#[test]
fn history_keeps_the_last_ten() {
    let mut scores: Vec<u32> = (0..10).collect();
    keep_recent(&mut scores, 10);
    assert_eq!(scores, (1..=10).collect::<Vec<u32>>());
    let mut few = vec![1, 2];
    keep_recent(&mut few, 3);
    assert_eq!(few, vec![1, 2, 3]);
}

#[test]
fn ghost_comparison() {
    assert_eq!(ghost_label(5), "ghost: +5  ");
    assert_eq!(ghost_label(-12), "ghost: -12  ");
    assert_eq!(ghost_label(0), "ghost: =  ");
    assert_eq!(ghost_label(i32::MIN), "ghost: -2147483648  ");
    assert_eq!(ghost_label_color(3), Color::Green);
    assert_eq!(ghost_label_color(-3), Color::Red);
    assert_eq!(ghost_label_color(0), Color::Rgb { r: 120, g: 120, b: 120 });
}

#[test]
fn ages_of_scores() {
    assert_eq!(human_age(0), "just now");
    assert_eq!(human_age(59), "just now");
    assert_eq!(human_age(300), "5m ago");
    assert_eq!(human_age(3599), "59m ago");
    assert_eq!(human_age(7200), "2h ago");
    assert_eq!(human_age(2 * 86400 + 5), "2d ago");
}

#[test]
fn category_of_a_result() {
    let entry = |language: &str, duration: u64, wpm: u32| ScoreEntry { language: language.to_string(), duration, wpm };
    let entries = vec![
        entry("english", 30, 50),
        entry("spanish", 30, 60),
        entry("english", 60, 70),
        entry("english", 30, 40),
    ];
    assert_eq!(category_indices(&entries, "english", 30), vec![0, 3]);
    assert_eq!(category_indices(&entries, "german", 30), Vec::<usize>::new());
}
